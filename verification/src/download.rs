//! Download decisions: retry, temp-file handling, atomic replacement.
//!
//! The caller performs the requests and the file writes; each observed
//! event goes through [`download_step`], whose action always disposes of
//! the temporary file before anything else can go wrong. Only a finished
//! stream commits, so a download that fails mid-stream never leaves a file
//! at the final destination path.
use vstd::prelude::*;
use crate::jsonv::{spec_str_field, str_field, JsonValue};
use crate::strutil::{
    chars_concat, chars_string, chars_subrange, chars_trim, str_chars, starts_with, trimmed,
    chars_starts_with,
};
use crate::transport::{
    is_retryable_status, retry_wait_from_headers, spec_backoff_base_ms, MAX_ATTEMPTS,
    MAX_JITTER_MS,
};
use crate::urlwrap::{url_join, url_join_of, url_parse, url_parse_of, url_path, url_path_of};

verus! {

/// The retry policy of one download: a fresh request per attempt, because
/// a partially consumed stream cannot be replayed.
pub struct DownloadRetry {
    pub max_attempts: u32,
}

impl Default for DownloadRetry {
    /// The same attempt budget the transport uses.
    fn default() -> (r: Self)
        ensures
            r.max_attempts == MAX_ATTEMPTS,
    {
        DownloadRetry { max_attempts: MAX_ATTEMPTS }
    }
}

/// What one download attempt was observed to do.
pub enum DownloadEvent {
    /// The request could not be sent at all.
    ConnFailed,
    /// The service answered with a non-success status.
    BadStatus { status: u16, headers: Vec<(String, String)> },
    /// The body stream broke while being written to the temporary file.
    StreamFailed,
    /// The whole body reached the temporary file.
    StreamFinished,
}

/// What the caller must do next. Every action other than `Commit` includes
/// removing the attempt's temporary file first.
pub enum DownloadAction {
    /// Remove the temporary file, wait, and start a fresh attempt.
    RetryAfter { wait_ms: u64 },
    /// Remove the temporary file and give up.
    Abort,
    /// Atomically replace the destination with the finished temporary file.
    Commit,
}

/// The decision after attempt number `attempt` observed `event`.
///
/// The only event that commits is a finished stream; a broken stream is
/// never resumed (only a fresh request would be valid), and a retryable
/// status or connection failure is retried while budget remains, with the
/// transport's own backoff formula.
pub fn download_step(attempt: u32, max_attempts: u32, event: &DownloadEvent) -> (r:
    DownloadAction)
    requires
        1 <= attempt <= max_attempts,
        max_attempts <= MAX_ATTEMPTS,
    ensures
        r is Commit <==> event is StreamFinished,
        event is StreamFailed ==> r is Abort,
        event is ConnFailed ==> if attempt < max_attempts {
            r is RetryAfter
        } else {
            r is Abort
        },
        *event matches DownloadEvent::BadStatus { status, headers } ==> if is_retryable_status(
            status,
        ) && attempt < max_attempts {
            r is RetryAfter
        } else {
            r is Abort
        },
        r matches DownloadAction::RetryAfter { wait_ms } ==> {
            let headers = match *event {
                DownloadEvent::BadStatus { headers, .. } => headers@,
                _ => Seq::<(String, String)>::empty(),
            };
            spec_backoff_base_ms(headers, attempt) <= wait_ms && (spec_backoff_base_ms(
                headers,
                attempt,
            ) + MAX_JITTER_MS <= u64::MAX ==> wait_ms < spec_backoff_base_ms(headers, attempt)
                + MAX_JITTER_MS)
        },
{
    match event {
        DownloadEvent::StreamFinished => DownloadAction::Commit,
        DownloadEvent::StreamFailed => DownloadAction::Abort,
        DownloadEvent::ConnFailed => {
            if attempt < max_attempts {
                let empty: Vec<(String, String)> = Vec::new();
                proof {
                    assert(empty@ =~= Seq::<(String, String)>::empty());
                }
                DownloadAction::RetryAfter {
                    wait_ms: retry_wait_from_headers(&empty, attempt),
                }
            } else {
                DownloadAction::Abort
            }
        },
        DownloadEvent::BadStatus { status, headers } => {
            if crate::transport::retryable_status(*status) && attempt < max_attempts {
                DownloadAction::RetryAfter {
                    wait_ms: retry_wait_from_headers(headers, attempt),
                }
            } else {
                DownloadAction::Abort
            }
        },
    }
}

/// The temporary file beside the destination for one attempt: the
/// destination's file name, the caller's uniqueness stamp, and `.tmp`.
pub open spec fn spec_tmp_file_name(dest_name: Seq<char>, stamp: Seq<char>) -> Seq<char> {
    dest_name + "."@ + stamp + ".tmp"@
}

pub fn tmp_file_name(dest_name: &str, stamp: &str) -> (r: String)
    ensures
        r@ == spec_tmp_file_name(dest_name@, stamp@),
{
    let d = str_chars(dest_name);
    let dot = str_chars(".");
    let s = str_chars(stamp);
    let ext = str_chars(".tmp");
    let m1 = chars_concat(&d, &dot);
    let m2 = chars_concat(&m1, &s);
    let m3 = chars_concat(&m2, &ext);
    proof {
        assert(m3@ =~= spec_tmp_file_name(dest_name@, stamp@));
    }
    chars_string(&m3)
}

/// The control characters and path separators a downloaded file's name may
/// not carry.
pub open spec fn is_unsafe_name_char(c: char) -> bool {
    c < '\u{20}' || ('\u{7F}' <= c && c <= '\u{9F}') || c == '/' || c == '\\'
}

/// A file name made safe: control characters and path separators dropped,
/// whitespace trimmed from both ends.
pub open spec fn spec_sanitize_filename(s: Seq<char>) -> Seq<char> {
    trimmed(s.filter(|c: char| !is_unsafe_name_char(c)))
}

pub fn sanitize_filename(input: &str) -> (r: String)
    ensures
        r@ == spec_sanitize_filename(input@),
{
    let v = str_chars(input);
    let mut kept: Vec<char> = Vec::new();
    let mut i: usize = 0;
    proof {
        reveal_with_fuel(Seq::<char>::filter, 2);
        assert(v@.subrange(0, 0).filter(|c: char| !is_unsafe_name_char(c)) =~= Seq::<
            char,
        >::empty());
    }
    while i < v.len()
        invariant
            i <= v@.len(),
            kept@ == v@.subrange(0, i as int).filter(|c: char| !is_unsafe_name_char(c)),
        decreases v@.len() - i,
    {
        let c = v[i];
        let unsafe_char = c < '\u{20}' || ('\u{7F}' <= c && c <= '\u{9F}') || c == '/' || c
            == '\\';
        proof {
            reveal_with_fuel(Seq::<char>::filter, 2);
            let pred = |c: char| !is_unsafe_name_char(c);
            let prefix = v@.subrange(0, i as int);
            let prefix1 = v@.subrange(0, i + 1);
            assert(prefix1 =~= prefix + seq![c]);
            Seq::filter_distributes_over_add(prefix, seq![c], pred);
            assert(seq![c].drop_last() =~= Seq::<char>::empty());
            assert(Seq::<char>::empty().filter(pred) =~= Seq::<char>::empty());
            if pred(c) {
                assert(seq![c].filter(pred) =~= seq![c]);
            } else {
                assert(seq![c].filter(pred) =~= Seq::<char>::empty());
            }
        }
        if !unsafe_char {
            kept.push(c);
            proof {
                assert(kept@ =~= v@.subrange(0, i as int).filter(
                    |c: char| !is_unsafe_name_char(c),
                ) + seq![c]);
            }
        }
        proof {
            assert(kept@ =~= v@.subrange(0, i + 1).filter(|c: char| !is_unsafe_name_char(c)));
        }
        i += 1;
    }
    proof {
        assert(v@.subrange(0, v@.len() as int) =~= v@);
    }
    let t = chars_trim(&kept);
    chars_string(&t)
}

pub open spec fn unsafe_title_text() -> Seq<char> {
    "Unsafe or missing attachment title. Provide --output to choose a file path."@
}

/// The path a download lands at: the caller's explicit output path, or a
/// file name taken from the attachment's title — its last path component,
/// which must be non-empty.
pub open spec fn spec_resolve_download_path(output: Option<Seq<char>>, item: JsonValue) -> Result<
    Seq<char>,
    Seq<char>,
> {
    match output {
        Some(p) => Ok(p),
        None => {
            let title = match spec_str_field(item, "title"@) {
                Some(t) => t,
                None => Seq::<char>::empty(),
            };
            let name = last_path_component(title);
            if name.len() == 0 {
                Err(unsafe_title_text())
            } else {
                Ok(name)
            }
        },
    }
}

/// What follows the last `/` of a path, or the path itself.
pub open spec fn last_path_component(p: Seq<char>) -> Seq<char>
    decreases p.len(),
{
    if p.len() == 0 {
        p
    } else if p[0] == '/' {
        last_path_component(p.subrange(1, p.len() as int))
    } else {
        let k = crate::strutil::find_char_idx(p, '/');
        if 0 <= k < p.len() {
            last_path_component(p.subrange(k + 1, p.len() as int))
        } else {
            p
        }
    }
}

#[verifier::loop_isolation(false)]
pub fn last_component(v: &Vec<char>) -> (r: Vec<char>)
    ensures
        r@ == last_path_component(v@),
{
    let n = v.len();
    let mut start: usize = 0;
    let mut i: usize = 0;
    proof {
        assert(v@.subrange(0, n as int) =~= v@);
    }
    while i < n
        invariant
            start <= i <= n,
            last_path_component(v@) == last_path_component(v@.subrange(start as int, n as int)),
            forall|t: int| start <= t < i ==> #[trigger] v@[t] != '/',
        decreases n - i,
    {
        if v[i] == '/' {
            let ghost cur = v@.subrange(start as int, n as int);
            proof {
                crate::strutil::lemma_find_char_idx_bounds(cur, '/');
                if i > start {
                    assert forall|u: int| 0 <= u < i - start implies #[trigger] cur[u]
                        != '/' by {
                        assert(cur[u] == v@[start + u]);
                    }
                    if crate::strutil::find_char_idx(cur, '/') < i - start {
                        assert(cur[crate::strutil::find_char_idx(cur, '/')] == '/');
                        assert(false);
                    }
                    if crate::strutil::find_char_idx(cur, '/') > i - start {
                        assert(cur[i - start] == v@[i as int]);
                        assert(false);
                    }
                    assert(cur.subrange(i - start + 1, cur.len() as int) =~= v@.subrange(
                        i + 1,
                        n as int,
                    ));
                } else {
                    assert(cur[0] == '/');
                    assert(cur.subrange(1, cur.len() as int) =~= v@.subrange(i + 1, n as int));
                }
            }
            start = i + 1;
        }
        i += 1;
    }
    let ghost cur = v@.subrange(start as int, n as int);
    proof {
        if start < n {
            assert(cur[0] == v@[start as int]);
            assert(cur[0] != '/');
            crate::strutil::lemma_find_char_idx_bounds(cur, '/');
            assert forall|u: int| 0 <= u < cur.len() implies #[trigger] cur[u] != '/' by {
                assert(cur[u] == v@[start + u]);
            }
            if crate::strutil::find_char_idx(cur, '/') < cur.len() {
                assert(false);
            }
            assert(last_path_component(cur) == cur);
        } else {
            assert(cur =~= Seq::<char>::empty());
        }
    }
    chars_subrange(v, start, n)
}

/// Where a download is written: the explicit output path where one was
/// given, else a safe file name from the attachment's title.
pub fn resolve_download_path(output: Option<&String>, item: &JsonValue) -> (r: Result<
    String,
    String,
>)
    ensures
        match r {
            Ok(p) => spec_resolve_download_path(
                match output {
                    Some(o) => Some(o@),
                    None => None,
                },
                *item,
            ) == Ok::<Seq<char>, Seq<char>>(p@),
            Err(e) => spec_resolve_download_path(
                match output {
                    Some(o) => Some(o@),
                    None => None,
                },
                *item,
            ) == Err::<Seq<char>, Seq<char>>(e@),
        },
{
    match output {
        Some(p) => Ok(p.clone()),
        None => {
            let title: Vec<char> = match str_field(item, "title") {
                Some(t) => t,
                None => Vec::new(),
            };
            proof {
                if spec_str_field(*item, "title"@) is None {
                    assert(title@ =~= Seq::<char>::empty());
                }
            }
            let name = last_component(&title);
            if name.len() == 0 {
                Err(
                    String::from_str(
                        "Unsafe or missing attachment title. Provide --output to choose a file path.",
                    ),
                )
            } else {
                Ok(chars_string(&name))
            }
        },
    }
}

pub open spec fn bad_download_link_text(download: Seq<char>) -> Seq<char> {
    "Invalid attachment download link '"@ + download + "'"@
}

/// The full URL an attachment is fetched from. An absolute URL is taken as
/// is; an absolute path has the web base's own path prefix put back in
/// front (plain resolution against the origin would drop it); anything
/// else resolves against the base.
pub open spec fn spec_attachment_download_url(base: Seq<char>, download: Seq<char>) -> Result<
    Seq<char>,
    Seq<char>,
> {
    if starts_with(download, "http://"@) || starts_with(download, "https://"@) {
        match url_parse_of(download) {
            Some(u) => Ok(u),
            None => Err("Invalid attachment download URL"@),
        }
    } else {
        let joined = if download.len() > 0 && download[0] == '/' {
            match url_path_of(base) {
                Some(p) => {
                    let prefix = crate::strutil::trim_end_char(p, '/');
                    if prefix.len() > 0 && !starts_with(download, prefix) {
                        url_join_of(base, prefix + download)
                    } else {
                        url_join_of(base, download)
                    }
                },
                None => url_join_of(base, download),
            }
        } else {
            url_join_of(base, download)
        };
        match joined {
            Some(u) => Ok(u),
            None => Err(bad_download_link_text(download)),
        }
    }
}

pub fn attachment_download_url(base: &str, download: &str) -> (r: Result<String, String>)
    ensures
        match r {
            Ok(u) => spec_attachment_download_url(base@, download@) == Ok::<
                Seq<char>,
                Seq<char>,
            >(u@),
            Err(e) => spec_attachment_download_url(base@, download@) == Err::<
                Seq<char>,
                Seq<char>,
            >(e@),
        },
{
    let dv = str_chars(download);
    let p1 = str_chars("http://");
    let p2 = str_chars("https://");
    if chars_starts_with(&dv, &p1) || chars_starts_with(&dv, &p2) {
        return match url_parse(download) {
            Some(u) => Ok(u),
            None => Err(String::from_str("Invalid attachment download URL")),
        };
    }
    let joined: Option<String> = if dv.len() > 0 && dv[0] == '/' {
        match url_path(base) {
            Some(p) => {
                let pc = str_chars(p.as_str());
                let prefix = crate::strutil::chars_trim_end_char(&pc, '/');
                if prefix.len() > 0 && !chars_starts_with(&dv, &prefix) {
                    let combined = chars_concat(&prefix, &dv);
                    let cs = chars_string(&combined);
                    url_join(base, cs.as_str())
                } else {
                    url_join(base, download)
                }
            },
            None => url_join(base, download),
        }
    } else {
        url_join(base, download)
    };
    match joined {
        Some(u) => Ok(u),
        None => {
            let head = str_chars("Invalid attachment download link '");
            let tail = str_chars("'");
            let m1 = chars_concat(&head, &dv);
            let m2 = chars_concat(&m1, &tail);
            proof {
                assert(m2@ =~= bad_download_link_text(download@));
            }
            Err(chars_string(&m2))
        },
    }
}

/// The candidate name for avoiding a collision: `stem (i)` with the
/// extension put back.
pub open spec fn spec_numbered_name(stem: Seq<char>, ext: Seq<char>, i: nat) -> Seq<char> {
    if ext.len() == 0 {
        stem + " ("@ + crate::strutil::decimal_of(i) + ")"@
    } else {
        stem + " ("@ + crate::strutil::decimal_of(i) + ")."@ + ext
    }
}

fn numbered_name(stem: &Vec<char>, ext: &Vec<char>, i: u64) -> (r: Vec<char>)
    ensures
        r@ == spec_numbered_name(stem@, ext@, i as nat),
{
    let open_par = str_chars(" (");
    let digits = crate::strutil::u64_string(i);
    let dc = str_chars(digits.as_str());
    let m1 = chars_concat(stem, &open_par);
    let m2 = chars_concat(&m1, &dc);
    if ext.len() == 0 {
        let close_par = str_chars(")");
        let m3 = chars_concat(&m2, &close_par);
        proof {
            assert(m3@ =~= spec_numbered_name(stem@, ext@, i as nat));
        }
        m3
    } else {
        let close_par = str_chars(").");
        let m3 = chars_concat(&m2, &close_par);
        let m4 = chars_concat(&m3, ext);
        proof {
            assert(m4@ =~= spec_numbered_name(stem@, ext@, i as nat));
        }
        m4
    }
}

/// The stem and extension of a file name, split at its last dot; a name
/// with no dot past its first character has no extension.
pub open spec fn spec_split_ext(name: Seq<char>) -> (Seq<char>, Seq<char>) {
    let k = last_dot_idx(name);
    if 1 <= k < name.len() {
        (name.subrange(0, k), name.subrange(k + 1, name.len() as int))
    } else {
        (name, Seq::<char>::empty())
    }
}

/// The index of the last `.`, or `-1` where there is none.
pub open spec fn last_dot_idx(s: Seq<char>) -> int
    decreases s.len(),
{
    if s.len() == 0 {
        -1
    } else if s.last() == '.' {
        s.len() - 1
    } else {
        last_dot_idx(s.drop_last())
    }
}

#[verifier::loop_isolation(false)]
pub fn split_ext(name: &Vec<char>) -> (r: (Vec<char>, Vec<char>))
    ensures
        r.0@ == spec_split_ext(name@).0,
        r.1@ == spec_split_ext(name@).1,
{
    let n = name.len();
    let mut j: usize = n;
    proof {
        assert(name@.subrange(0, n as int) =~= name@);
    }
    while j > 0 && name[j - 1] != '.'
        invariant
            j <= n,
            last_dot_idx(name@) == last_dot_idx(name@.subrange(0, j as int)),
        decreases j,
    {
        proof {
            let cur = name@.subrange(0, j as int);
            assert(cur.last() == name@[j - 1]);
            assert(cur.drop_last() =~= name@.subrange(0, j - 1));
        }
        j -= 1;
    }
    proof {
        assert(name@.subrange(0, n as int) =~= name@);
        let cur = name@.subrange(0, j as int);
        if j > 0 {
            assert(cur.last() == name@[j - 1]);
            assert(last_dot_idx(cur) == j - 1);
        } else {
            assert(cur =~= Seq::<char>::empty());
            assert(last_dot_idx(cur) == -1);
        }
    }
    if j >= 2 {
        let stem = chars_subrange(name, 0, j - 1);
        let ext = chars_subrange(name, j, n);
        (stem, ext)
    } else {
        let whole = chars_subrange(name, 0, n);
        proof {
            assert(whole@ =~= name@);
        }
        (whole, Vec::new())
    }
}

/// Whether some taken name reads exactly `n`.
pub open spec fn spec_name_taken(taken: Seq<String>, n: Seq<char>) -> bool {
    exists|i: int| 0 <= i < taken.len() && #[trigger] taken[i]@ == n
}

fn name_taken(taken: &Vec<String>, n: &Vec<char>) -> (r: bool)
    ensures
        r == spec_name_taken(taken@, n@),
{
    let mut i: usize = 0;
    while i < taken.len()
        invariant
            i <= taken@.len(),
            forall|j: int| 0 <= j < i ==> #[trigger] taken@[j]@ != n@,
        decreases taken@.len() - i,
    {
        let tc = str_chars(taken[i].as_str());
        if crate::strutil::chars_eq(&tc, n) {
            return true;
        }
        i += 1;
    }
    false
}

/// A name that collides with none of the taken ones: the name itself where
/// it is free, else the first `stem (i)` variant (up to 9999) that is free,
/// else the name unchanged.
#[verifier::loop_isolation(false)]
pub fn unique_path(name: String, taken: &Vec<String>) -> (r: String)
    ensures
        !spec_name_taken(taken@, name@) ==> r@ == name@,
        spec_name_taken(taken@, name@) ==> ((exists|i: int|
            {
                &&& 1 <= i < 10000
                &&& r@ == #[trigger] spec_numbered_name(
                    spec_split_ext(name@).0,
                    spec_split_ext(name@).1,
                    i as nat,
                )
                &&& !spec_name_taken(taken@, r@)
                &&& (forall|j: int|
                    1 <= j < i ==> spec_name_taken(
                        taken@,
                        #[trigger] spec_numbered_name(
                            spec_split_ext(name@).0,
                            spec_split_ext(name@).1,
                            j as nat,
                        ),
                    ))
            }) || (r@ == name@ && (forall|i: int|
            1 <= i < 10000 ==> spec_name_taken(
                taken@,
                #[trigger] spec_numbered_name(
                    spec_split_ext(name@).0,
                    spec_split_ext(name@).1,
                    i as nat,
                ),
            )))),
{
    let nc = str_chars(name.as_str());
    if !name_taken(taken, &nc) {
        return name;
    }
    let (stem, ext) = split_ext(&nc);
    let mut i: u64 = 1;
    while i < 10000
        invariant
            1 <= i <= 10000,
            stem@ == spec_split_ext(name@).0,
            ext@ == spec_split_ext(name@).1,
            forall|j: int|
                1 <= j < i ==> spec_name_taken(
                    taken@,
                    #[trigger] spec_numbered_name(stem@, ext@, j as nat),
                ),
        decreases 10000 - i,
    {
        let cand = numbered_name(&stem, &ext, i);
        if !name_taken(taken, &cand) {
            proof {
                let w: int = i as int;
                assert(1 <= w < 10000);
                assert(cand@ == spec_numbered_name(
                    spec_split_ext(name@).0,
                    spec_split_ext(name@).1,
                    w as nat,
                ));
            }
            return chars_string(&cand);
        }
        i += 1;
    }
    name
}

} // verus!
