//! Identifier resolution: space keys, `SPACE:Title` references and page
//! URLs turned into the service's numeric ids, with a bounded cache for the
//! hot paths.
//!
//! The network calls happen outside the library: each resolver function
//! either answers outright or hands back the URL to fetch, and a companion
//! function reads the fetched items.
use vstd::prelude::*;
use crate::endpoints::{url_with_query, Endpoints};
use crate::errors::ApiError;
use crate::jsonv::{spec_str_field, str_field, JsonValue};
use crate::strutil::{
    all_digits, chars_all_digits, chars_concat, chars_eq, chars_find, chars_string,
    chars_subrange, decimal_of, find_char_idx, join_with, str_chars, u64_string,
};
use crate::urlwrap::{
    url_append_pairs_of, url_query_pairs, url_query_pairs_of, url_segments, url_segments_of,
};

verus! {

/// The bound on either resolver cache, to keep long scripted runs from
/// growing without limit.
pub const CACHE_CAPACITY: usize = 1024;

/// What a cache holds: its key-to-value map.
pub uninterp spec fn cache_entries(c: lru::LruCache<String, String>) -> Map<Seq<char>, Seq<char>>;

/// The capacity a cache was made with.
pub uninterp spec fn cache_cap(c: lru::LruCache<String, String>) -> nat;

#[verifier::external_type_specification]
#[verifier::external_body]
#[verifier::reject_recursive_types(K)]
#[verifier::reject_recursive_types(V)]
#[verifier::reject_recursive_types(S)]
pub struct ExLruCache<K, V, S>(lru::LruCache<K, V, S>);

#[verifier::external_type_specification]
#[verifier::external_body]
pub struct ExLruDefaultHasher(lru::DefaultHasher);

/// Relies on lru's `LruCache::get`: the cached value; only recency moves.
#[verifier::external_body]
fn lru_get(c: &mut lru::LruCache<String, String>, key: &str) -> (r: Option<String>)
    ensures
        cache_entries(*final(c)) == cache_entries(*old(c)),
        cache_cap(*final(c)) == cache_cap(*old(c)),
        match r {
            Some(v) => cache_entries(*old(c)).contains_key(key@) && cache_entries(*old(c))[key@]
                == v@,
            None => !cache_entries(*old(c)).contains_key(key@),
        },
{
    c.get(key).cloned()
}

/// Relies on lru's `LruCache::put`: the pair is stored; at most the
/// least-recently-used other entry leaves when the cache is full, so the
/// entry count never exceeds the construction capacity.
#[verifier::external_body]
fn lru_put(c: &mut lru::LruCache<String, String>, key: String, value: String)
    ensures
        cache_cap(*final(c)) == cache_cap(*old(c)),
        cache_entries(*final(c)).dom().finite(),
        cache_entries(*final(c)).dom().len() <= cache_cap(*final(c)),
        cache_entries(*final(c)).contains_key(key@),
        cache_entries(*final(c))[key@] == value@,
        forall|k: Seq<char>|
            #[trigger] cache_entries(*final(c)).contains_key(k) ==> k == key@ || cache_entries(
                *old(c),
            ).contains_key(k),
        forall|k: Seq<char>|
            #[trigger] cache_entries(*final(c)).contains_key(k) && k != key@ ==> cache_entries(
                *final(c),
            )[k] == cache_entries(*old(c))[k],
{
    c.put(key, value);
}

/// A bounded key-to-value cache with process lifetime and no persistence,
/// passed explicitly so every run can start from an empty one.
pub struct StringCache {
    cache: lru::LruCache<String, String>,
}

impl StringCache {
    pub closed spec fn entries(self) -> Map<Seq<char>, Seq<char>> {
        cache_entries(self.cache)
    }

    pub closed spec fn capacity(self) -> nat {
        cache_cap(self.cache)
    }

    /// An empty cache with the resolver's fixed capacity. Relies on lru's
    /// `LruCache::new`.
    #[verifier::external_body]
    pub fn new() -> (r: StringCache)
        ensures
            forall|k: Seq<char>| !(#[trigger] r.entries().contains_key(k)),
            r.entries().dom().finite(),
            r.capacity() == CACHE_CAPACITY,
    {
        StringCache {
            cache: lru::LruCache::new(core::num::NonZeroUsize::new(CACHE_CAPACITY).unwrap()),
        }
    }

    /// The cached value for `key`, if one is present.
    pub fn get(&mut self, key: &str) -> (r: Option<String>)
        ensures
            final(self).entries() == old(self).entries(),
            final(self).capacity() == old(self).capacity(),
            match r {
                Some(v) => old(self).entries().contains_key(key@) && old(self).entries()[key@]
                    == v@,
                None => !old(self).entries().contains_key(key@),
            },
    {
        lru_get(&mut self.cache, key)
    }

    /// Stores the pair, evicting at most the least-recently-used entry.
    pub fn put(&mut self, key: String, value: String)
        ensures
            final(self).capacity() == old(self).capacity(),
            final(self).entries().dom().finite(),
            final(self).entries().dom().len() <= final(self).capacity(),
            final(self).entries().contains_key(key@),
            final(self).entries()[key@] == value@,
            forall|k: Seq<char>|
                #[trigger] final(self).entries().contains_key(k) ==> k == key@
                    || old(self).entries().contains_key(k),
            forall|k: Seq<char>|
                #[trigger] final(self).entries().contains_key(k) && k != key@
                    ==> final(self).entries()[k] == old(self).entries()[k],
    {
        lru_put(&mut self.cache, key, value)
    }
}

/// A reference that is already an id: non-empty, all digits.
pub open spec fn is_numeric_ref(s: Seq<char>) -> bool {
    s.len() > 0 && all_digits(s)
}

pub fn numeric_ref(s: &Vec<char>) -> (r: bool)
    ensures
        r == is_numeric_ref(s@),
{
    s.len() > 0 && chars_all_digits(s)
}

/// The numeric id in a URL's path: the segment after a `pages` segment,
/// where that segment is non-empty and all digits; after a `pages` segment
/// the scan continues past the pair.
pub open spec fn spec_pages_segment(segs: Seq<Seq<char>>) -> Option<Seq<char>>
    decreases segs.len(),
{
    if segs.len() == 0 {
        None
    } else if segs[0] == "pages"@ {
        if segs.len() >= 2 {
            if segs[1].len() > 0 && all_digits(segs[1]) {
                Some(segs[1])
            } else {
                spec_pages_segment(segs.subrange(2, segs.len() as int))
            }
        } else {
            None
        }
    } else {
        spec_pages_segment(segs.subrange(1, segs.len() as int))
    }
}

/// The value of the first `pageId` query parameter.
pub open spec fn spec_page_id_param(pairs: Seq<(Seq<char>, Seq<char>)>) -> Option<Seq<char>>
    decreases pairs.len(),
{
    if pairs.len() == 0 {
        None
    } else if pairs[0].0 == "pageId"@ {
        Some(pairs[0].1)
    } else {
        spec_page_id_param(pairs.drop_first())
    }
}

/// The page id a URL carries: a `.../pages/<digits>` path segment, or a
/// `pageId` query parameter; nothing where the text is not a URL.
pub open spec fn spec_extract_page_id(url: Seq<char>) -> Option<Seq<char>> {
    let from_path = match url_segments_of(url) {
        Some(Some(segs)) => spec_pages_segment(segs),
        _ => None,
    };
    if from_path is Some {
        from_path
    } else {
        match url_query_pairs_of(url) {
            Some(pairs) => spec_page_id_param(pairs),
            _ => None,
        }
    }
}

/// The page id named by a URL, without any network call.
#[verifier::loop_isolation(false)]
pub fn extract_page_id_from_url(url: &str) -> (r: Option<String>)
    ensures
        match r {
            Some(id) => spec_extract_page_id(url@) == Some(id@),
            None => spec_extract_page_id(url@) is None,
        },
{
    let from_path: Option<String> = match url_segments(url) {
        Some(Some(segs)) => {
            let ghost views = segs@.map_values(|x: String| x@);
            let pages = str_chars("pages");
            let mut i: usize = 0;
            let mut found: Option<String> = None;
            proof {
                assert(views.subrange(0, views.len() as int) =~= views);
            }
            let mut done = false;
            while !done
                invariant
                    i <= segs@.len(),
                    views == segs@.map_values(|x: String| x@),
                    pages@ == "pages"@,
                    !done ==> found is None,
                    !done ==> spec_pages_segment(views) == spec_pages_segment(
                        views.subrange(i as int, views.len() as int),
                    ),
                    done ==> (match found {
                        Some(id) => spec_pages_segment(views) == Some(id@),
                        None => spec_pages_segment(views) is None,
                    }),
                decreases segs@.len() - i, (if done {
                    0int
                } else {
                    1int
                }),
            {
                if i >= segs.len() {
                    proof {
                        assert(views.subrange(i as int, views.len() as int) =~= Seq::<
                            Seq<char>,
                        >::empty());
                    }
                    done = true;
                    continue ;
                }
                let ghost rest = views.subrange(i as int, views.len() as int);
                proof {
                    assert(rest[0] == views[i as int]);
                }
                let sc = str_chars(segs[i].as_str());
                if chars_eq(&sc, &pages) {
                    if i + 1 < segs.len() {
                        let idc = str_chars(segs[i + 1].as_str());
                        proof {
                            assert(rest[1] == views[i + 1]);
                        }
                        if idc.len() > 0 && chars_all_digits(&idc) {
                            found = Some(chars_string(&idc));
                            done = true;
                            continue ;
                        }
                        proof {
                            assert(rest.subrange(2, rest.len() as int) =~= views.subrange(
                                i + 2,
                                views.len() as int,
                            ));
                        }
                        i += 2;
                    } else {
                        proof {
                            assert(rest.len() == 1);
                        }
                        done = true;
                        continue ;
                    }
                } else {
                    proof {
                        assert(rest.subrange(1, rest.len() as int) =~= views.subrange(
                            i + 1,
                            views.len() as int,
                        ));
                    }
                    i += 1;
                }
            }
            found
        },
        _ => None,
    };
    match from_path {
        Some(id) => {
            return Some(id);
        },
        None => {},
    }
    match url_query_pairs(url) {
        Some(pairs) => {
            let ghost views = pairs@.map_values(|p: (String, String)| (p.0@, p.1@));
            let key = str_chars("pageId");
            let mut i: usize = 0;
            proof {
                assert(views.subrange(0, views.len() as int) =~= views);
            }
            while i < pairs.len()
                invariant
                    i <= pairs@.len(),
                    views == pairs@.map_values(|p: (String, String)| (p.0@, p.1@)),
                    key@ == "pageId"@,
                    spec_page_id_param(views) == spec_page_id_param(
                        views.subrange(i as int, views.len() as int),
                    ),
                decreases pairs@.len() - i,
            {
                let ghost rest = views.subrange(i as int, views.len() as int);
                proof {
                    assert(rest[0] == views[i as int]);
                    assert(rest.drop_first() =~= views.subrange(i + 1, views.len() as int));
                }
                let kc = str_chars(pairs[i].0.as_str());
                if chars_eq(&kc, &key) {
                    return Some(pairs[i].1.clone());
                }
                i += 1;
            }
            proof {
                assert(views.subrange(i as int, views.len() as int) =~= Seq::<(
                    Seq<char>,
                    Seq<char>,
                )>::empty());
            }
            None
        },
        None => None,
    }
}

/// How a page reference is read, first match wins: a bare numeric id; a URL
/// naming a page; a `SPACE:Title` pair; anything else is unresolvable.
#[derive(Debug)]
pub enum PageRef {
    Id(String),
    SpaceTitle { space: String, title: String },
    Invalid,
}

/// Classifies a page reference without any network call.
pub fn parse_page_reference(page: &str) -> (r: PageRef)
    ensures
        is_numeric_ref(page@) ==> (r matches PageRef::Id(s) && s@ == page@),
        !is_numeric_ref(page@) ==> (match spec_extract_page_id(page@) {
            Some(id) => r matches PageRef::Id(s) && s@ == id,
            None => true,
        }),
        !is_numeric_ref(page@) && spec_extract_page_id(page@) is None && find_char_idx(
            page@,
            ':',
        ) < page@.len() ==> (r matches PageRef::SpaceTitle { space, title } && space@
            == page@.take(find_char_idx(page@, ':')) && title@ == page@.skip(
            find_char_idx(page@, ':') + 1,
        )),
        !is_numeric_ref(page@) && spec_extract_page_id(page@) is None && find_char_idx(
            page@,
            ':',
        ) == page@.len() ==> r is Invalid,
{
    let pv = str_chars(page);
    if numeric_ref(&pv) {
        let r = chars_string(&pv);
        return PageRef::Id(r);
    }
    match extract_page_id_from_url(page) {
        Some(id) => {
            return PageRef::Id(id);
        },
        None => {},
    }
    match chars_find(&pv, ':') {
        Some(k) => {
            let space = chars_subrange(&pv, 0, k);
            let title = chars_subrange(&pv, k + 1, pv.len());
            proof {
                assert(space@ =~= page@.take(find_char_idx(page@, ':')));
                assert(title@ =~= page@.skip(find_char_idx(page@, ':') + 1));
            }
            PageRef::SpaceTitle { space: chars_string(&space), title: chars_string(&title) }
        },
        None => PageRef::Invalid,
    }
}

/// What resolving a space reference needs next: it is already an id, the
/// cache knows it, or one lookup must be made.
#[derive(Debug)]
pub enum SpaceLookup {
    Done(String),
    Query { url: String },
}

/// The first step of resolving a space reference: numeric references and
/// cached keys answer at once; anything else names the lookup URL, built
/// with the reference properly encoded.
pub fn resolve_space_id_start(ep: &Endpoints, cache: &mut StringCache, space: &str) -> (r:
    Result<SpaceLookup, String>)
    ensures
        final(cache).entries() == old(cache).entries(),
        is_numeric_ref(space@) ==> (r matches Ok(SpaceLookup::Done(id)) && id@ == space@),
        !is_numeric_ref(space@) && old(cache).entries().contains_key(space@) ==> (r matches Ok(
            SpaceLookup::Done(id),
        ) && id@ == old(cache).entries()[space@]),
        !is_numeric_ref(space@) && !old(cache).entries().contains_key(space@) ==> (match r {
            Ok(SpaceLookup::Query { url }) => url_append_pairs_of(
                ep.api_base_v2@ + "/spaces"@,
                seq![("keys"@, space@), ("limit"@, "1"@)],
            ) == Some(url@),
            Ok(SpaceLookup::Done(_)) => false,
            Err(_) => url_append_pairs_of(
                ep.api_base_v2@ + "/spaces"@,
                seq![("keys"@, space@), ("limit"@, "1"@)],
            ) is None,
        }),
{
    let sv = str_chars(space);
    if numeric_ref(&sv) {
        return Ok(SpaceLookup::Done(chars_string(&sv)));
    }
    match cache.get(space) {
        Some(id) => {
            return Ok(SpaceLookup::Done(id));
        },
        None => {},
    }
    let base = ep.v2_url("/spaces");
    let mut pairs: Vec<(String, String)> = Vec::new();
    pairs.push((String::from_str("keys"), chars_string(&sv)));
    pairs.push((String::from_str("limit"), String::from_str("1")));
    proof {
        assert(pairs@.map_values(|p: (String, String)| (p.0@, p.1@)) =~= seq![
            ("keys"@, space@),
            ("limit"@, "1"@),
        ]);
    }
    match url_with_query(base.as_str(), &pairs) {
        Ok(url) => Ok(SpaceLookup::Query { url }),
        Err(e) => Err(e),
    }
}

pub open spec fn space_not_found_text(space: Seq<char>) -> Seq<char> {
    "Space '"@ + space + "' not found"@
}

/// Reads the space lookup's answer: the first item's id, recorded in the
/// cache under the reference; a distinct not-found error otherwise.
pub fn resolve_space_id_from_items(
    cache: &mut StringCache,
    items: &Vec<JsonValue>,
    space: &str,
) -> (r: Result<String, ApiError>)
    ensures
        match r {
            Ok(id) => items@.len() > 0 && spec_str_field(items@[0], "id"@) == Some(id@)
                && final(cache).entries().contains_key(space@)
                && final(cache).entries()[space@] == id@,
            Err(e) => (items@.len() == 0 || spec_str_field(items@[0], "id"@) is None) && (
            e matches ApiError::NotFound { message } && message@ == space_not_found_text(
                space@,
            )) && final(cache).entries() == old(cache).entries(),
        },
{
    if items.len() > 0 {
        match str_field(&items[0], "id") {
            Some(id) => {
                let id_s = chars_string(&id);
                cache.put(String::from_str(space), id_s.clone());
                return Ok(id_s);
            },
            None => {},
        }
    }
    let head = str_chars("Space '");
    let sv = str_chars(space);
    let tail = str_chars("' not found");
    let m1 = chars_concat(&head, &sv);
    let m2 = chars_concat(&m1, &tail);
    proof {
        assert(m2@ =~= space_not_found_text(space@));
    }
    Err(ApiError::NotFound { message: chars_string(&m2) })
}

/// The URL that finds a page by exact title within a space.
pub fn page_by_title_url(ep: &Endpoints, space_id: &str, title: &str) -> (r: Result<
    String,
    String,
>)
    ensures
        match r {
            Ok(url) => url_append_pairs_of(
                ep.api_base_v2@ + "/pages"@,
                seq![("space-id"@, space_id@), ("title"@, title@), ("limit"@, "1"@)],
            ) == Some(url@),
            Err(_) => url_append_pairs_of(
                ep.api_base_v2@ + "/pages"@,
                seq![("space-id"@, space_id@), ("title"@, title@), ("limit"@, "1"@)],
            ) is None,
        },
{
    let base = ep.v2_url("/pages");
    let mut pairs: Vec<(String, String)> = Vec::new();
    pairs.push((String::from_str("space-id"), String::from_str(space_id)));
    pairs.push((String::from_str("title"), String::from_str(title)));
    pairs.push((String::from_str("limit"), String::from_str("1")));
    proof {
        assert(pairs@.map_values(|p: (String, String)| (p.0@, p.1@)) =~= seq![
            ("space-id"@, space_id@),
            ("title"@, title@),
            ("limit"@, "1"@),
        ]);
    }
    url_with_query(base.as_str(), &pairs)
}

pub open spec fn page_not_found_text(title: Seq<char>, space: Seq<char>) -> Seq<char> {
    "Page '"@ + title + "' not found in space "@ + space
}

/// Reads the title query's answer: the first match's id, or a distinct
/// not-found error naming the title and space.
pub fn resolve_page_from_items(items: &Vec<JsonValue>, title: &str, space: &str) -> (r: Result<
    String,
    ApiError,
>)
    ensures
        match r {
            Ok(id) => items@.len() > 0 && spec_str_field(items@[0], "id"@) == Some(id@),
            Err(e) => (items@.len() == 0 || spec_str_field(items@[0], "id"@) is None) && (
            e matches ApiError::NotFound { message } && message@ == page_not_found_text(
                title@,
                space@,
            )),
        },
{
    if items.len() > 0 {
        match str_field(&items[0], "id") {
            Some(id) => {
                return Ok(chars_string(&id));
            },
            None => {},
        }
    }
    let head = str_chars("Page '");
    let tv = str_chars(title);
    let mid = str_chars("' not found in space ");
    let sv = str_chars(space);
    let m1 = chars_concat(&head, &tv);
    let m2 = chars_concat(&m1, &mid);
    let m3 = chars_concat(&m2, &sv);
    proof {
        assert(m3@ =~= page_not_found_text(title@, space@));
    }
    Err(ApiError::NotFound { message: chars_string(&m3) })
}

pub open spec fn bad_reference_text(page: Seq<char>) -> Seq<char> {
    "Unable to resolve page reference '"@ + page
        + "'. Use a page id, URL, or SPACE:Title."@
}

/// The error for a reference in none of the accepted shapes.
pub fn page_reference_error(page: &str) -> (r: ApiError)
    ensures
        r matches ApiError::NotFound { message } && message@ == bad_reference_text(page@),
{
    let head = str_chars("Unable to resolve page reference '");
    let pv = str_chars(page);
    let tail = str_chars("'. Use a page id, URL, or SPACE:Title.");
    let m1 = chars_concat(&head, &pv);
    let m2 = chars_concat(&m1, &tail);
    proof {
        assert(m2@ =~= bad_reference_text(page@));
    }
    ApiError::NotFound { message: chars_string(&m2) }
}

/// The lookup URL for one space's key.
pub fn space_key_url(ep: &Endpoints, space_id: &str) -> (r: String)
    ensures
        r@ == ep.api_base_v2@ + "/spaces/"@ + space_id@,
{
    let head = str_chars("/spaces/");
    let sv = str_chars(space_id);
    let path = chars_concat(&head, &sv);
    let url = ep.v2_url(chars_string(&path).as_str());
    proof {
        assert(ep.api_base_v2@ + ("/spaces/"@ + space_id@) =~= ep.api_base_v2@ + "/spaces/"@
            + space_id@);
    }
    url
}

/// The cached key for a space id, if one is present.
pub fn cached_space_key(cache: &mut StringCache, space_id: &str) -> (r: Option<String>)
    ensures
        final(cache).entries() == old(cache).entries(),
        match r {
            Some(v) => old(cache).entries().contains_key(space_id@)
                && old(cache).entries()[space_id@] == v@,
            None => !old(cache).entries().contains_key(space_id@),
        },
{
    cache.get(space_id)
}

/// Reads one space's lookup answer: its `key` field, or the id itself where
/// the field is missing; the answer is cached before it is returned.
pub fn space_key_from_response(
    cache: &mut StringCache,
    space_id: &str,
    json: &JsonValue,
) -> (r: String)
    ensures
        r@ == (match spec_str_field(*json, "key"@) {
            Some(k) => k,
            None => space_id@,
        }),
        final(cache).entries().contains_key(space_id@),
        final(cache).entries()[space_id@] == r@,
{
    let key: String = match str_field(json, "key") {
        Some(k) => chars_string(&k),
        None => String::from_str(space_id),
    };
    cache.put(String::from_str(space_id), key.clone());
    key
}

/// The display form of a space key: personal and anonymous spaces (keys
/// with the `~` sentinel prefix) show their human display name instead.
pub open spec fn spec_display_key(key: Seq<char>, name: Option<Seq<char>>) -> Seq<char> {
    if key.len() > 0 && key[0] == '~' {
        match name {
            Some(n) => n,
            None => key,
        }
    } else {
        key
    }
}

pub fn display_key(key: &str, name: Option<&String>) -> (r: String)
    ensures
        r@ == spec_display_key(
            key@,
            match name {
                Some(n) => Some(n@),
                None => None,
            },
        ),
{
    let kv = str_chars(key);
    if kv.len() > 0 && kv[0] == '~' {
        match name {
            Some(n) => n.clone(),
            None => chars_string(&kv),
        }
    } else {
        chars_string(&kv)
    }
}

/// Whether some hit already carries this id.
fn contains_pair_key(hits: &Vec<(String, String)>, id: &Vec<char>) -> (r: bool)
    ensures
        r == (exists|j: int| 0 <= j < hits@.len() && (#[trigger] hits@[j]).0@ == id@),
{
    let mut j: usize = 0;
    while j < hits.len()
        invariant
            j <= hits@.len(),
            forall|t: int| 0 <= t < j ==> (#[trigger] hits@[t]).0@ != id@,
        decreases hits@.len() - j,
    {
        let hv = str_chars(hits[j].0.as_str());
        if chars_eq(&hv, id) {
            return true;
        }
        j += 1;
    }
    false
}

/// Whether some listed name reads exactly this id.
fn contains_name(list: &Vec<String>, id: &Vec<char>) -> (r: bool)
    ensures
        r == (exists|j: int| 0 <= j < list@.len() && (#[trigger] list@[j])@ == id@),
{
    let mut j: usize = 0;
    while j < list.len()
        invariant
            j <= list@.len(),
            forall|t: int| 0 <= t < j ==> (#[trigger] list@[t])@ != id@,
        decreases list@.len() - j,
    {
        let lv = str_chars(list[j].as_str());
        if chars_eq(&lv, id) {
            return true;
        }
        j += 1;
    }
    false
}

/// An id answered on one side of the partition: among the hits' keys, or
/// among the ids still missing.
pub open spec fn spec_id_covered(
    id: Seq<char>,
    hits: Seq<(String, String)>,
    missing: Seq<String>,
) -> bool {
    (exists|j: int| 0 <= j < hits.len() && (#[trigger] hits[j]).0@ == id) || (exists|j: int|
        0 <= j < missing.len() && (#[trigger] missing[j])@ == id)
}

/// An id that was actually requested.
pub open spec fn spec_from_ids(id: Seq<char>, ids: Seq<String>) -> bool {
    exists|t: int| 0 <= t < ids.len() && (#[trigger] ids[t])@ == id
}

/// The pairs the cache could already answer, and the ids that still need a
/// network lookup. Every requested id lands on exactly one side, duplicates
/// collapsed; hits keep the request order; the lookups then happen outside
/// the lock, in chunks.
#[verifier::loop_isolation(false)]
#[verifier::rlimit(60)]
pub fn partition_cached(cache: &mut StringCache, ids: &Vec<String>) -> (r: (
    Vec<(String, String)>,
    Vec<String>,
))
    ensures
        final(cache).entries() == old(cache).entries(),
        final(cache).capacity() == old(cache).capacity(),
        forall|j: int|
            0 <= j < r.0@.len() ==> old(cache).entries().contains_key(#[trigger] r.0@[j].0@)
                && old(cache).entries()[r.0@[j].0@] == r.0@[j].1@,
        forall|j: int|
            0 <= j < r.1@.len() ==> !old(cache).entries().contains_key(#[trigger] r.1@[j]@),
        forall|i: int|
            0 <= i < ids@.len() ==> spec_id_covered((#[trigger] ids@[i])@, r.0@, r.1@),
        forall|j: int|
            0 <= j < r.0@.len() ==> spec_from_ids((#[trigger] r.0@[j]).0@, ids@),
        forall|j: int|
            0 <= j < r.1@.len() ==> spec_from_ids((#[trigger] r.1@[j])@, ids@),
        forall|a: int, b: int|
            0 <= a < b < r.0@.len() ==> (#[trigger] r.0@[a]).0@ != (#[trigger] r.0@[b]).0@,
        forall|a: int, b: int|
            0 <= a < b < r.1@.len() ==> (#[trigger] r.1@[a])@ != (#[trigger] r.1@[b])@,
{
    let mut hits: Vec<(String, String)> = Vec::new();
    let mut missing: Vec<String> = Vec::new();
    let mut i: usize = 0;
    while i < ids.len()
        invariant
            i <= ids@.len(),
            cache.entries() == old(cache).entries(),
            cache.capacity() == old(cache).capacity(),
            forall|j: int|
                0 <= j < hits@.len() ==> old(cache).entries().contains_key(
                    #[trigger] hits@[j].0@,
                ) && old(cache).entries()[hits@[j].0@] == hits@[j].1@,
            forall|j: int|
                0 <= j < missing@.len() ==> !old(cache).entries().contains_key(
                    #[trigger] missing@[j]@,
                ),
            forall|t: int|
                0 <= t < i ==> spec_id_covered((#[trigger] ids@[t])@, hits@, missing@),
            forall|j: int|
                0 <= j < hits@.len() ==> spec_from_ids((#[trigger] hits@[j]).0@, ids@),
            forall|j: int|
                0 <= j < missing@.len() ==> spec_from_ids((#[trigger] missing@[j])@, ids@),
            forall|a: int, b: int|
                0 <= a < b < hits@.len() ==> (#[trigger] hits@[a]).0@ != (
                #[trigger] hits@[b]).0@,
            forall|a: int, b: int|
                0 <= a < b < missing@.len() ==> (#[trigger] missing@[a])@ != (
                #[trigger] missing@[b])@,
        decreases ids@.len() - i,
    {
        let idv = str_chars(ids[i].as_str());
        let in_hits = contains_pair_key(&hits, &idv);
        let in_missing = contains_name(&missing, &idv);
        let ghost prev_hits = hits@;
        let ghost prev_missing = missing@;
        if !in_hits && !in_missing {
            match cache.get(ids[i].as_str()) {
                Some(v) => {
                    hits.push((ids[i].clone(), v));
                    proof {
                        assert(hits@[hits@.len() - 1].0@ == ids@[i as int]@);
                        assert(spec_id_covered(ids@[i as int]@, hits@, missing@));
                        assert(spec_from_ids(hits@[hits@.len() - 1].0@, ids@));
                    }
                },
                None => {
                    missing.push(ids[i].clone());
                    proof {
                        assert(missing@[missing@.len() - 1]@ == ids@[i as int]@);
                        assert(spec_id_covered(ids@[i as int]@, hits@, missing@));
                        assert(spec_from_ids(missing@[missing@.len() - 1]@, ids@));
                    }
                },
            }
        } else {
            proof {
                assert(idv@ == ids@[i as int]@);
                assert(spec_id_covered(ids@[i as int]@, hits@, missing@));
            }
        }
        proof {
            assert(forall|j: int|
                0 <= j < prev_hits.len() ==> #[trigger] hits@[j] == prev_hits[j]);
            assert(forall|j: int|
                0 <= j < prev_missing.len() ==> #[trigger] missing@[j] == prev_missing[j]);
            assert forall|t: int| 0 <= t < i implies spec_id_covered(
                (#[trigger] ids@[t])@,
                hits@,
                missing@,
            ) by {
                if exists|j: int|
                    0 <= j < prev_hits.len() && (#[trigger] prev_hits[j]).0@ == ids@[t]@ {
                    let j = choose|j: int|
                        0 <= j < prev_hits.len() && (#[trigger] prev_hits[j]).0@ == ids@[t]@;
                    assert(hits@[j].0@ == ids@[t]@);
                } else {
                    let j = choose|j: int|
                        0 <= j < prev_missing.len() && (#[trigger] prev_missing[j])@ == ids@[t]@;
                    assert(missing@[j]@ == ids@[t]@);
                }
            }
        }
        i += 1;
    }
    (hits, missing)
}

/// The ids of one lookup chunk joined with commas, for the batched query.
pub fn join_ids(chunk: &Vec<String>) -> (r: String)
    ensures
        r@ == join_with(chunk@.map_values(|x: String| x@), seq![',']),
{
    let mut pieces: Vec<Vec<char>> = Vec::new();
    let mut i: usize = 0;
    while i < chunk.len()
        invariant
            i <= chunk@.len(),
            pieces@.map_values(|p: Vec<char>| p@) =~= chunk@.map_values(|x: String| x@).take(
                i as int,
            ),
        decreases chunk@.len() - i,
    {
        let ghost before = pieces@.map_values(|p: Vec<char>| p@);
        pieces.push(str_chars(chunk[i].as_str()));
        proof {
            assert(pieces@.map_values(|p: Vec<char>| p@) =~= before.push(chunk@[i as int]@));
            assert(before.push(chunk@[i as int]@) =~= chunk@.map_values(|x: String| x@).take(
                i + 1,
            ));
        }
        i += 1;
    }
    proof {
        assert(chunk@.map_values(|x: String| x@).take(chunk@.len() as int) =~= chunk@.map_values(
            |x: String| x@,
        ));
    }
    let mut comma: Vec<char> = Vec::new();
    comma.push(',');
    let joined = join_chars_local(&pieces, &comma);
    proof {
        assert(comma@ =~= seq![',']);
    }
    chars_string(&joined)
}

fn join_chars_local(pieces: &Vec<Vec<char>>, sep: &Vec<char>) -> (r: Vec<char>)
    ensures
        r@ == join_with(pieces@.map_values(|p: Vec<char>| p@), sep@),
{
    crate::strutil::join_chars(pieces, sep)
}

/// The batched lookup URL for one chunk of space ids.
pub fn space_keys_chunk_url(ep: &Endpoints, chunk: &Vec<String>) -> (r: String)
    ensures
        r@ == ep.api_base_v2@ + "/spaces?ids="@ + join_with(
            chunk@.map_values(|x: String| x@),
            seq![','],
        ) + "&limit="@ + decimal_of(chunk@.len()),
{
    let ids = join_ids(chunk);
    let head = str_chars("/spaces?ids=");
    let idv = str_chars(ids.as_str());
    let mid = str_chars("&limit=");
    let count = u64_string(chunk.len() as u64);
    let cv = str_chars(count.as_str());
    let m1 = chars_concat(&head, &idv);
    let m2 = chars_concat(&m1, &mid);
    let m3 = chars_concat(&m2, &cv);
    let url = ep.v2_url(chars_string(&m3).as_str());
    proof {
        assert(ep.api_base_v2@ + m3@ =~= ep.api_base_v2@ + "/spaces?ids="@ + join_with(
            chunk@.map_values(|x: String| x@),
            seq![','],
        ) + "&limit="@ + decimal_of(chunk@.len()));
    }
    url
}

/// What one batched-lookup item contributes: its id, and the display form
/// of its key, where both fields are present.
pub open spec fn spec_space_key_entry(item: JsonValue) -> Option<(Seq<char>, Seq<char>)> {
    match (spec_str_field(item, "id"@), spec_str_field(item, "key"@)) {
        (Some(id), Some(key)) => Some(
            (id, spec_display_key(key, spec_str_field(item, "name"@))),
        ),
        _ => None,
    }
}

/// Every id-and-key pair of a batched lookup answer, in order.
pub open spec fn spec_collect_keys(items: Seq<JsonValue>) -> Seq<(Seq<char>, Seq<char>)>
    decreases items.len(),
{
    if items.len() == 0 {
        Seq::<(Seq<char>, Seq<char>)>::empty()
    } else {
        let rest = spec_collect_keys(items.drop_first());
        match spec_space_key_entry(items[0]) {
            Some(p) => seq![p] + rest,
            None => rest,
        }
    }
}

/// A pair of the collected results that explains a cache entry.
pub open spec fn spec_backfilled(k: Seq<char>, v: Seq<char>, pairs: Seq<(String, String)>) -> bool {
    exists|j: int| 0 <= j < pairs.len() && (#[trigger] pairs[j]).0@ == k && pairs[j].1@ == v
}

/// Reads a batched lookup answer: each item's id mapped to its display key,
/// all of them backfilled into the cache, in answer order, before they are
/// returned. The cache stays within its capacity, so an earlier entry may
/// be evicted again by a later one; every entry the backfill leaves behind
/// carries a collected value, and the last collected pair is always there.
#[verifier::loop_isolation(false)]
pub fn collect_space_keys(cache: &mut StringCache, items: &Vec<JsonValue>) -> (r: Vec<
    (String, String),
>)
    ensures
        r@.map_values(|p: (String, String)| (p.0@, p.1@)) == spec_collect_keys(items@),
        final(cache).capacity() == old(cache).capacity(),
        r@.len() > 0 ==> final(cache).entries().contains_key(r@[r@.len() - 1].0@)
            && final(cache).entries()[r@[r@.len() - 1].0@] == r@[r@.len() - 1].1@,
        forall|k: Seq<char>|
            #[trigger] final(cache).entries().contains_key(k)
                && !old(cache).entries().contains_key(k) ==> spec_backfilled(
                k,
                final(cache).entries()[k],
                r@,
            ),
{
    let mut out: Vec<(String, String)> = Vec::new();
    let mut i: usize = items.len();
    proof {
        assert(items@.subrange(items@.len() as int, items@.len() as int) =~= Seq::<
            JsonValue,
        >::empty());
        assert(spec_collect_keys(Seq::<JsonValue>::empty()) =~= Seq::<(
            Seq<char>,
            Seq<char>,
        )>::empty());
    }
    while i > 0
        invariant
            i <= items@.len(),
            cache.entries() == old(cache).entries(),
            cache.capacity() == old(cache).capacity(),
            out@.map_values(|p: (String, String)| (p.0@, p.1@)) =~= spec_collect_keys(
                items@.subrange(i as int, items@.len() as int),
            ),
        decreases i,
    {
        i -= 1;
        let ghost rest = items@.subrange(i + 1, items@.len() as int);
        let ghost cur = items@.subrange(i as int, items@.len() as int);
        proof {
            assert(cur[0] == items@[i as int]);
            assert(cur.drop_first() =~= rest);
        }
        let id = str_field(&items[i], "id");
        let key = str_field(&items[i], "key");
        match (id, key) {
            (Some(idv), Some(keyv)) => {
                let name: Option<String> = match str_field(&items[i], "name") {
                    Some(nv) => Some(chars_string(&nv)),
                    None => None,
                };
                let key_s = chars_string(&keyv);
                let display = display_key(key_s.as_str(), name.as_ref());
                let id_s = chars_string(&idv);
                let ghost before = out@.map_values(|p: (String, String)| (p.0@, p.1@));
                out.insert(0, (id_s, display));
                proof {
                    assert(out@.map_values(|p: (String, String)| (p.0@, p.1@)) =~= seq![
                        (out@[0].0@, out@[0].1@),
                    ] + before);
                    assert(spec_collect_keys(cur) =~= seq![(out@[0].0@, out@[0].1@)] + before);
                }
            },
            _ => {
                proof {
                    assert(spec_collect_keys(cur) =~= spec_collect_keys(rest));
                }
            },
        }
    }
    proof {
        assert(items@.subrange(0, items@.len() as int) =~= items@);
    }
    let mut p: usize = 0;
    while p < out.len()
        invariant
            p <= out@.len(),
            cache.capacity() == old(cache).capacity(),
            p > 0 ==> cache.entries().contains_key(out@[p - 1].0@) && cache.entries()[out@[p
                - 1].0@] == out@[p - 1].1@,
            forall|k: Seq<char>|
                #[trigger] cache.entries().contains_key(k)
                    && !old(cache).entries().contains_key(k) ==> spec_backfilled(
                    k,
                    cache.entries()[k],
                    out@,
                ),
        decreases out@.len() - p,
    {
        let ghost entries_before = cache.entries();
        cache.put(out[p].0.clone(), out[p].1.clone());
        proof {
            assert(cache.entries().contains_key(out@[p as int].0@));
            assert(cache.entries()[out@[p as int].0@] == out@[p as int].1@);
            assert forall|k: Seq<char>|
                #[trigger] cache.entries().contains_key(k)
                    && !old(cache).entries().contains_key(k) implies spec_backfilled(
                k,
                cache.entries()[k],
                out@,
            ) by {
                if k == out@[p as int].0@ {
                    assert((#[trigger] out@[p as int]).0@ == k && out@[p as int].1@
                        == cache.entries()[k]);
                } else {
                    assert(entries_before.contains_key(k));
                    let j = choose|j: int|
                        0 <= j < out@.len() && (#[trigger] out@[j]).0@ == k && out@[j].1@
                            == entries_before[k];
                    assert(cache.entries()[k] == entries_before[k]);
                }
            }
        }
        p += 1;
    }
    out
}

/// One batched lookup asks for at most this many ids.
pub const SPACE_KEY_CHUNK: usize = 250;

/// The missing ids split into consecutive lookup chunks: chunk `j` is the
/// ids from position `j * 250` on, at most 250 of them; every chunk but the
/// last is full, and none is empty.
#[verifier::loop_isolation(false)]
pub fn chunk_ids(ids: &Vec<String>) -> (r: Vec<Vec<String>>)
    ensures
        forall|j: int|
            #![trigger r@[j]]
            0 <= j < r@.len() ==> r@[j]@ == ids@.subrange(
                j * (SPACE_KEY_CHUNK as int),
                if (j + 1) * (SPACE_KEY_CHUNK as int) <= ids@.len() {
                    (j + 1) * (SPACE_KEY_CHUNK as int)
                } else {
                    ids@.len() as int
                },
            ),
        ids@.len() == 0 ==> r@.len() == 0,
        ids@.len() > 0 ==> (r@.len() - 1) * (SPACE_KEY_CHUNK as int) < ids@.len() <= r@.len() * (
        SPACE_KEY_CHUNK as int),
{
    let mut r: Vec<Vec<String>> = Vec::new();
    let mut start: usize = 0;
    while start < ids.len()
        invariant
            start <= ids@.len(),
            start == r@.len() * (SPACE_KEY_CHUNK as int) || (start == ids@.len() && r@.len()
                >= 1 && start > (r@.len() - 1) * (SPACE_KEY_CHUNK as int) && start <= r@.len()
                * (SPACE_KEY_CHUNK as int)),
            forall|j: int|
                #![trigger r@[j]]
                0 <= j < r@.len() ==> r@[j]@ == ids@.subrange(
                    j * (SPACE_KEY_CHUNK as int),
                    if (j + 1) * (SPACE_KEY_CHUNK as int) <= ids@.len() {
                        (j + 1) * (SPACE_KEY_CHUNK as int)
                    } else {
                        ids@.len() as int
                    },
                ),
        decreases ids@.len() - start,
    {
        let stop: usize = if ids.len() - start > SPACE_KEY_CHUNK {
            start + SPACE_KEY_CHUNK
        } else {
            ids.len()
        };
        let mut chunk: Vec<String> = Vec::new();
        let mut t = start;
        while t < stop
            invariant
                start <= t <= stop <= ids@.len(),
                chunk@ == ids@.subrange(start as int, t as int),
            decreases stop - t,
        {
            chunk.push(ids[t].clone());
            t += 1;
            proof {
                assert(chunk@ =~= ids@.subrange(start as int, t as int));
            }
        }
        let ghost before = r@;
        r.push(chunk);
        proof {
            assert(forall|j: int| 0 <= j < before.len() ==> #[trigger] r@[j] == before[j]);
            assert(r@[r@.len() - 1]@ == ids@.subrange(start as int, stop as int));
        }
        start = stop;
    }
    proof {
        if ids@.len() > 0 {
            assert(start >= ids@.len() && start <= ids@.len());
            if start == r@.len() * (SPACE_KEY_CHUNK as int) {
                assert(r@.len() >= 1);
                assert((r@.len() - 1) * (SPACE_KEY_CHUNK as int) == r@.len() * (
                SPACE_KEY_CHUNK as int) - (SPACE_KEY_CHUNK as int)) by (nonlinear_arith);
            }
        }
    }
    r
}

} // verus!
