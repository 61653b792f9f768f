//! The compute halves of the user-facing commands: query-language escaping,
//! table rows read out of responses, payload pieces, and input validation.
//! The network and terminal work around them lives outside the library.
use vstd::prelude::*;
use crate::jsonv::{
    decimal_i64, i64_string, json_str, spec_as_i64, spec_get, spec_scalar_string, spec_str_field,
    str_field, JsonValue,
};
use crate::pattern::{regex_is_match, regex_match_of};
use crate::strutil::{chars_concat, chars_find, chars_string, find_char_idx, str_chars};

verus! {

/// CQL text escaping: backslashes and quotes escaped, line breaks and tabs
/// flattened to spaces, so user input cannot break out of a quoted string.
pub open spec fn spec_escape_cql(s: Seq<char>) -> Seq<char>
    decreases s.len(),
{
    if s.len() == 0 {
        s
    } else {
        let head = if s[0] == '\\' {
            seq!['\\', '\\']
        } else if s[0] == '"' {
            seq!['\\', '"']
        } else if s[0] == '\n' || s[0] == '\r' || s[0] == '\t' {
            seq![' ']
        } else {
            seq![s[0]]
        };
        head + spec_escape_cql(s.subrange(1, s.len() as int))
    }
}

/// A value escaped for splicing into a quoted CQL string.
#[verifier::loop_isolation(false)]
pub fn escape_cql_text(value: &str) -> (r: String)
    ensures
        r@ == spec_escape_cql(value@),
{
    let v = str_chars(value);
    let n = v.len();
    let mut out: Vec<char> = Vec::new();
    let mut i: usize = 0;
    proof {
        assert(v@.subrange(0, n as int) =~= v@);
    }
    while i < n
        invariant
            i <= n,
            spec_escape_cql(v@) == out@ + spec_escape_cql(v@.subrange(i as int, n as int)),
        decreases n - i,
    {
        let ghost rest = v@.subrange(i as int, n as int);
        proof {
            assert(rest[0] == v@[i as int]);
            assert(rest.subrange(1, rest.len() as int) =~= v@.subrange(i + 1, n as int));
        }
        let c = v[i];
        if c == '\\' {
            out.push('\\');
            out.push('\\');
        } else if c == '"' {
            out.push('\\');
            out.push('"');
        } else if c == '\n' || c == '\r' || c == '\t' {
            out.push(' ');
        } else {
            out.push(c);
        }
        proof {
            assert(out@ + spec_escape_cql(v@.subrange(i + 1, n as int)) =~= spec_escape_cql(
                v@,
            ));
        }
        i += 1;
    }
    proof {
        assert(spec_escape_cql(v@.subrange(n as int, n as int)) =~= Seq::<char>::empty());
        assert(out@ =~= spec_escape_cql(v@));
    }
    chars_string(&out)
}

pub open spec fn cql_keyword_pattern() -> Seq<char> {
    "\\b(AND|OR|NOT|IN)\\b"@
}

pub open spec fn cql_field_op_pattern() -> Seq<char> {
    "\\w+\\s*[=~!<>]"@
}

/// Whether the query already reads as CQL: an operator keyword, a
/// field-operator pair, or parentheses.
pub open spec fn spec_is_cql(q: Seq<char>) -> bool {
    regex_match_of(cql_keyword_pattern(), q) == Some(true) || regex_match_of(
        cql_field_op_pattern(),
        q,
    ) == Some(true) || (q.contains('(') && q.contains(')'))
}

/// What the search command sends: the query as CQL where it already reads
/// as CQL, else a quoted full-text search for it.
pub open spec fn spec_to_cql(q: Seq<char>) -> Seq<char> {
    if spec_is_cql(q) {
        q
    } else {
        "text ~ \""@ + spec_escape_cql(q) + "\""@
    }
}

/// The CQL the search command sends for a user query.
pub fn to_cql_query(query: &str) -> (r: String)
    ensures
        r@ == spec_to_cql(query@),
{
    let has_kw = match regex_is_match("\\b(AND|OR|NOT|IN)\\b", query) {
        Some(b) => b,
        None => false,
    };
    let has_op = match regex_is_match("\\w+\\s*[=~!<>]", query) {
        Some(b) => b,
        None => false,
    };
    let qv = str_chars(query);
    let has_open = match chars_find(&qv, '(') {
        Some(_) => true,
        None => false,
    };
    let has_close = match chars_find(&qv, ')') {
        Some(_) => true,
        None => false,
    };
    proof {
        crate::strutil::lemma_find_char_idx_bounds(query@, '(');
        crate::strutil::lemma_find_char_idx_bounds(query@, ')');
        if find_char_idx(query@, '(') < query@.len() {
            assert(query@.contains('('));
        }
        if query@.contains('(') {
            let w = choose|w: int| 0 <= w < query@.len() && query@[w] == '(';
            assert(find_char_idx(query@, '(') < query@.len());
        }
        if find_char_idx(query@, ')') < query@.len() {
            assert(query@.contains(')'));
        }
        if query@.contains(')') {
            let w = choose|w: int| 0 <= w < query@.len() && query@[w] == ')';
            assert(find_char_idx(query@, ')') < query@.len());
        }
    }
    if has_kw || has_op || (has_open && has_close) {
        return String::from_str(query);
    }
    let head = str_chars("text ~ \"");
    let esc = escape_cql_text(query);
    let ev = str_chars(esc.as_str());
    let tail = str_chars("\"");
    let m1 = chars_concat(&head, &ev);
    let m2 = chars_concat(&m1, &tail);
    proof {
        assert(m2@ =~= "text ~ \""@ + spec_escape_cql(query@) + "\""@);
    }
    chars_string(&m2)
}

/// The CQL that finds content carrying a label: a namespaced label matches
/// itself alone; a bare one also tries the common namespaces.
pub open spec fn spec_label_cql(label: Seq<char>) -> Seq<char> {
    let esc = spec_escape_cql(label);
    if esc.contains(':') {
        "label = \""@ + esc + "\""@
    } else {
        "label in (\""@ + esc + "\", \"team:"@ + esc + "\", \"my:"@ + esc + "\")"@
    }
}

pub fn label_cql(label: &str) -> (r: String)
    ensures
        r@ == spec_label_cql(label@),
{
    let esc = escape_cql_text(label);
    let ev = str_chars(esc.as_str());
    let has_colon = match chars_find(&ev, ':') {
        Some(_) => true,
        None => false,
    };
    proof {
        crate::strutil::lemma_find_char_idx_bounds(ev@, ':');
        if find_char_idx(ev@, ':') < ev@.len() {
            assert(ev@.contains(':'));
        }
        if ev@.contains(':') {
            let w = choose|w: int| 0 <= w < ev@.len() && ev@[w] == ':';
            assert(find_char_idx(ev@, ':') < ev@.len());
        }
    }
    if has_colon {
        let head = str_chars("label = \"");
        let tail = str_chars("\"");
        let m1 = chars_concat(&head, &ev);
        let m2 = chars_concat(&m1, &tail);
        proof {
            assert(m2@ =~= spec_label_cql(label@));
        }
        chars_string(&m2)
    } else {
        let p1 = str_chars("label in (\"");
        let p2 = str_chars("\", \"team:");
        let p3 = str_chars("\", \"my:");
        let p4 = str_chars("\")");
        let m1 = chars_concat(&p1, &ev);
        let m2 = chars_concat(&m1, &p2);
        let m3 = chars_concat(&m2, &ev);
        let m4 = chars_concat(&m3, &p3);
        let m5 = chars_concat(&m4, &ev);
        let m6 = chars_concat(&m5, &p4);
        proof {
            assert(m6@ =~= spec_label_cql(label@));
        }
        chars_string(&m6)
    }
}

/// What the human-readable size formatter yields for a byte count: a
/// function of the count alone.
pub uninterp spec fn human_size_of(bytes: u64) -> Seq<char>;

/// Relies on humansize's `format_size` with the binary system: a function
/// of the byte count alone.
#[verifier::external_body]
fn format_size_binary(bytes: u64) -> (r: String)
    ensures
        r@ == human_size_of(bytes),
{
    humansize::format_size(bytes, humansize::BINARY)
}

/// A byte count for people: binary units, with a negative count shown as
/// its plain numeral.
pub fn human_size(bytes: i64) -> (r: String)
    ensures
        bytes < 0 ==> r@ == decimal_i64(bytes as int),
        bytes >= 0 ==> r@ == human_size_of(bytes as u64),
{
    if bytes < 0 {
        i64_string(bytes)
    } else {
        format_size_binary(bytes as u64)
    }
}

/// The space column of a search result row: the content's own space key, or
/// the result container's display URL tail (its title for personal spaces),
/// or the container title, or nothing.
pub open spec fn spec_search_space(item: JsonValue) -> Seq<char> {
    let from_content = match spec_get(item, "content"@) {
        Some(content) => match spec_get(content, "space"@) {
            Some(space) => spec_str_field(space, "key"@),
            None => None,
        },
        None => None,
    };
    match from_content {
        Some(k) => k,
        None => match spec_get(item, "resultGlobalContainer"@) {
            Some(container) => {
                let key = match spec_str_field(container, "displayUrl"@) {
                    Some(u) => crate::download::last_path_component(u),
                    None => Seq::<char>::empty(),
                };
                if key.len() > 0 && key[0] == '~' {
                    match spec_str_field(container, "title"@) {
                        Some(t) => t,
                        None => Seq::<char>::empty(),
                    }
                } else if key.len() > 0 {
                    key
                } else {
                    match spec_str_field(container, "title"@) {
                        Some(t) => t,
                        None => Seq::<char>::empty(),
                    }
                }
            },
            None => Seq::<char>::empty(),
        },
    }
}

/// One search result as a table row: id, type, space, title.
pub fn search_result_row(item: &JsonValue) -> (r: Vec<String>)
    ensures
        r@.len() == 4,
        match spec_get(*item, "content"@) {
            Some(content) => r@[0]@ == (match spec_get(content, "id"@) {
                Some(x) => spec_scalar_string(x),
                None => Seq::<char>::empty(),
            }) && r@[1]@ == (match spec_get(content, "type"@) {
                Some(x) => spec_scalar_string(x),
                None => Seq::<char>::empty(),
            }) && r@[3]@ == (match spec_get(content, "title"@) {
                Some(x) => spec_scalar_string(x),
                None => Seq::<char>::empty(),
            }),
            None => r@[0]@.len() == 0 && r@[1]@.len() == 0 && r@[3]@.len() == 0,
        },
        r@[2]@ == spec_search_space(*item),
{
    let (id, typ, title) = match item.get("content") {
        Some(content) => (
            json_str(content, "id"),
            json_str(content, "type"),
            json_str(content, "title"),
        ),
        None => (String::new(), String::new(), String::new()),
    };
    let space: String = {
        let from_content: Option<Vec<char>> = match item.get("content") {
            Some(content) => match content.get("space") {
                Some(space) => str_field(space, "key"),
                None => None,
            },
            None => None,
        };
        match from_content {
            Some(k) => chars_string(&k),
            None => match item.get("resultGlobalContainer") {
                Some(container) => {
                    let key: Vec<char> = match str_field(container, "displayUrl") {
                        Some(u) => crate::download::last_component(&u),
                        None => Vec::new(),
                    };
                    if key.len() > 0 && key[0] == '~' {
                        match str_field(container, "title") {
                            Some(t) => chars_string(&t),
                            None => String::new(),
                        }
                    } else if key.len() > 0 {
                        chars_string(&key)
                    } else {
                        match str_field(container, "title") {
                            Some(t) => chars_string(&t),
                            None => String::new(),
                        }
                    }
                },
                None => String::new(),
            },
        }
    };
    let mut r: Vec<String> = Vec::new();
    r.push(id);
    r.push(typ);
    r.push(space);
    r.push(title);
    r
}

/// Where a comment sits on the page, in either shape the service uses.
pub open spec fn spec_comment_location(item: JsonValue) -> Seq<char> {
    match spec_get(item, "extensions"@) {
        Some(ext) => match spec_str_field(ext, "location"@) {
            Some(loc) => loc,
            None => match spec_get(ext, "location"@) {
                Some(loc_obj) => match spec_str_field(loc_obj, "value"@) {
                    Some(v) => v,
                    None => Seq::<char>::empty(),
                },
                None => Seq::<char>::empty(),
            },
        },
        None => Seq::<char>::empty(),
    }
}

pub fn comment_location(item: &JsonValue) -> (r: String)
    ensures
        r@ == spec_comment_location(*item),
{
    match item.get("extensions") {
        Some(ext) => match str_field(ext, "location") {
            Some(loc) => chars_string(&loc),
            None => match ext.get("location") {
                Some(loc_obj) => match str_field(loc_obj, "value") {
                    Some(v) => chars_string(&v),
                    None => String::new(),
                },
                None => String::new(),
            },
        },
        None => String::new(),
    }
}

/// The nearest enclosing comment: the last ancestor whose type reads
/// `comment`, scanning the ancestor list in order.
pub open spec fn spec_comment_parent(ancestors: Seq<JsonValue>) -> Option<Seq<char>>
    decreases ancestors.len(),
{
    if ancestors.len() == 0 {
        None
    } else {
        let rest = spec_comment_parent(ancestors.drop_last());
        let last = ancestors.last();
        if spec_str_field(last, "type"@) == Some("comment"@) && spec_str_field(
            last,
            "id"@,
        ) is Some {
            spec_str_field(last, "id"@)
        } else {
            rest
        }
    }
}

/// The id of the comment this one replies to, if any. The type comparison
/// is exact: the service reports it in lower case.
#[verifier::loop_isolation(false)]
pub fn comment_parent_id(item: &JsonValue) -> (r: Option<String>)
    ensures
        match spec_get(*item, "ancestors"@) {
            Some(JsonValue::Arr(ancestors)) => match r {
                Some(id) => spec_comment_parent(ancestors@) == Some(id@),
                None => spec_comment_parent(ancestors@) is None,
            },
            _ => r is None,
        },
{
    let ancestors = match item.get("ancestors") {
        Some(a) => match a.as_array() {
            Some(items) => items,
            None => {
                return None;
            },
        },
        None => {
            return None;
        },
    };
    let ghost all = ancestors@;
    let probe = str_chars("comment");
    let mut last: Option<String> = None;
    let mut i: usize = 0;
    proof {
        assert(all.subrange(0, 0) =~= Seq::<JsonValue>::empty());
    }
    while i < ancestors.len()
        invariant
            i <= all.len(),
            all == ancestors@,
            probe@ == "comment"@,
            match last {
                Some(id) => spec_comment_parent(all.subrange(0, i as int)) == Some(id@),
                None => spec_comment_parent(all.subrange(0, i as int)) is None,
            },
        decreases all.len() - i,
    {
        let ghost prefix = all.subrange(0, i as int);
        let ghost prefix1 = all.subrange(0, i + 1);
        proof {
            assert(prefix1.drop_last() =~= prefix);
            assert(prefix1.last() == all[i as int]);
        }
        let is_comment = match str_field(&ancestors[i], "type") {
            Some(t) => crate::strutil::chars_eq(&t, &probe),
            None => false,
        };
        if is_comment {
            match str_field(&ancestors[i], "id") {
                Some(id) => {
                    last = Some(chars_string(&id));
                },
                None => {},
            }
        }
        i += 1;
    }
    proof {
        assert(all.subrange(0, all.len() as int) =~= all);
    }
    last
}

/// A table cell made safe for structured text: pipes escaped, line breaks
/// flattened.
pub open spec fn spec_escape_md_cell(s: Seq<char>) -> Seq<char>
    decreases s.len(),
{
    if s.len() == 0 {
        s
    } else {
        let head = if s[0] == '|' {
            seq!['\\', '|']
        } else if s[0] == '\n' {
            seq![' ']
        } else {
            seq![s[0]]
        };
        head + spec_escape_md_cell(s.subrange(1, s.len() as int))
    }
}

#[verifier::loop_isolation(false)]
pub fn escape_md_cell(s: &str) -> (r: String)
    ensures
        r@ == spec_escape_md_cell(s@),
{
    let v = str_chars(s);
    let n = v.len();
    let mut out: Vec<char> = Vec::new();
    let mut i: usize = 0;
    proof {
        assert(v@.subrange(0, n as int) =~= v@);
    }
    while i < n
        invariant
            i <= n,
            spec_escape_md_cell(v@) == out@ + spec_escape_md_cell(
                v@.subrange(i as int, n as int),
            ),
        decreases n - i,
    {
        let ghost rest = v@.subrange(i as int, n as int);
        proof {
            assert(rest[0] == v@[i as int]);
            assert(rest.subrange(1, rest.len() as int) =~= v@.subrange(i + 1, n as int));
        }
        let c = v[i];
        if c == '|' {
            out.push('\\');
            out.push('|');
        } else if c == '\n' {
            out.push(' ');
        } else {
            out.push(c);
        }
        proof {
            assert(out@ + spec_escape_md_cell(v@.subrange(i + 1, n as int))
                =~= spec_escape_md_cell(v@));
        }
        i += 1;
    }
    proof {
        assert(spec_escape_md_cell(v@.subrange(n as int, n as int)) =~= Seq::<char>::empty());
        assert(out@ =~= spec_escape_md_cell(v@));
    }
    chars_string(&out)
}

pub open spec fn source_header_text(base_url: Seq<char>, webui: Seq<char>, md: Seq<char>) -> Seq<
    char,
> {
    "<!-- Source: "@ + base_url + webui + " -->\n\n"@ + md
}

/// The converted text with a source-link comment put in front, where the
/// page carries its web location.
pub fn add_markdown_header(base_url: &str, json: &JsonValue, markdown: &str) -> (r: String)
    ensures
        match spec_get(*json, "_links"@) {
            Some(links) => match spec_str_field(links, "webui"@) {
                Some(w) => r@ == source_header_text(base_url@, w, markdown@),
                None => r@ == markdown@,
            },
            None => r@ == markdown@,
        },
{
    let webui: Option<Vec<char>> = match json.get("_links") {
        Some(links) => str_field(links, "webui"),
        None => None,
    };
    match webui {
        Some(w) => {
            let head = str_chars("<!-- Source: ");
            let bv = str_chars(base_url);
            let mid = str_chars(" -->\n\n");
            let mv = str_chars(markdown);
            let m1 = chars_concat(&head, &bv);
            let m2 = chars_concat(&m1, &w);
            let m3 = chars_concat(&m2, &mid);
            let m4 = chars_concat(&m3, &mv);
            proof {
                assert(m4@ =~= source_header_text(base_url@, w@, markdown@));
            }
            chars_string(&m4)
        },
        None => String::from_str(markdown),
    }
}

/// Where an update's body comes from: given inline, read from a file, read
/// from standard input, or refused when the choice is ambiguous or absent.
pub enum BodySource {
    Inline(String),
    FromFile(String),
    FromStdin,
}

pub open spec fn both_bodies_text() -> Seq<char> {
    "Use either --body or --body-file, not both"@
}

pub open spec fn no_body_text() -> Seq<char> {
    "Provide --body or --body-file (use '-' for stdin)"@
}

/// Decides where the body comes from; the read itself happens outside the
/// library.
pub fn choose_body_source(body: Option<String>, body_file: Option<String>) -> (r: Result<
    BodySource,
    String,
>)
    ensures
        match (body, body_file) {
            (Some(b), Some(_)) => r matches Err(e) && e@ == both_bodies_text(),
            (Some(b), None) => r matches Ok(BodySource::Inline(x)) && x == b,
            (None, Some(f)) => if f@ == "-"@ {
                r is Ok && (r matches Ok(s) ==> s is FromStdin)
            } else {
                r matches Ok(BodySource::FromFile(x)) && x == f
            },
            (None, None) => r matches Err(e) && e@ == no_body_text(),
        },
{
    match (body, body_file) {
        (Some(_), Some(_)) => Err(String::from_str("Use either --body or --body-file, not both")),
        (Some(b), None) => Ok(BodySource::Inline(b)),
        (None, Some(f)) => {
            let fv = str_chars(f.as_str());
            let dash = str_chars("-");
            if crate::strutil::chars_eq(&fv, &dash) {
                Ok(BodySource::FromStdin)
            } else {
                Ok(BodySource::FromFile(f))
            }
        },
        (None, None) => Err(
            String::from_str("Provide --body or --body-file (use '-' for stdin)"),
        ),
    }
}

/// The version an update must send: one more than the current one, read
/// from `version.number`; a stale number is what the service answers with
/// a conflict.
pub fn next_version(current: &JsonValue) -> (r: Option<i64>)
    ensures
        match spec_get(*current, "version"@) {
            Some(v) => match spec_get(v, "number"@) {
                Some(n) => match spec_as_i64(n) {
                    Some(x) => if x < i64::MAX {
                        r == Some((x + 1) as i64)
                    } else {
                        r is None
                    },
                    None => r is None,
                },
                None => r is None,
            },
            None => r is None,
        },
{
    match current.get("version") {
        Some(v) => match v.get("number") {
            Some(n) => match n.as_i64() {
                Some(x) => {
                    if x < i64::MAX {
                        Some(x + 1)
                    } else {
                        None
                    }
                },
                None => None,
            },
            None => None,
        },
        None => None,
    }
}

pub open spec fn unsupported_markdown_text() -> Seq<char> {
    "Markdown output is only supported for page get/body"@
}

/// The refusal for commands that have no structured-text rendering.
pub fn markdown_not_supported() -> (r: Result<(), String>)
    ensures
        r matches Err(e) && e@ == unsupported_markdown_text(),
{
    Err(String::from_str("Markdown output is only supported for page get/body"))
}

/// The title taken from a body file's name: the stem of its last path
/// component; standard input carries no name.
pub open spec fn spec_title_from_file(path: Seq<char>) -> Option<Seq<char>> {
    if path == "-"@ {
        None
    } else {
        Some(crate::download::spec_split_ext(crate::download::last_path_component(path)).0)
    }
}

pub fn derive_title_from_file(body_file: Option<&String>) -> (r: Option<String>)
    ensures
        match body_file {
            Some(p) => (match spec_title_from_file(p@) {
                Some(t) => r matches Some(x) && x@ == t,
                None => r is None,
            }),
            None => r is None,
        },
{
    let path = match body_file {
        Some(p) => p,
        None => {
            return None;
        },
    };
    let pv = str_chars(path.as_str());
    let dash = str_chars("-");
    if crate::strutil::chars_eq(&pv, &dash) {
        return None;
    }
    let name = crate::download::last_component(&pv);
    let (stem, _ext) = crate::download::split_ext(&name);
    Some(chars_string(&stem))
}

/// The character lowered as ASCII; format names are matched case-blind.
pub open spec fn ascii_lowered(s: Seq<char>) -> Seq<char> {
    s.map_values(
        |c: char|
            if 'A' <= c && c <= 'Z' {
                (c as u32 + 32) as char
            } else {
                c
            },
    )
}

fn ascii_lower_chars(v: &Vec<char>) -> (r: Vec<char>)
    ensures
        r@ == ascii_lowered(v@),
{
    let mut out: Vec<char> = Vec::new();
    let mut i: usize = 0;
    while i < v.len()
        invariant
            i <= v@.len(),
            out@ =~= ascii_lowered(v@).take(i as int),
        decreases v@.len() - i,
    {
        let c = v[i];
        if 'A' <= c && c <= 'Z' {
            let low = match char::from_u32(c as u32 + 32) {
                Some(x) => x,
                None => c,
            };
            out.push(low);
        } else {
            out.push(c);
        }
        i += 1;
        proof {
            assert(out@ =~= ascii_lowered(v@).take(i as int));
        }
    }
    proof {
        assert(ascii_lowered(v@).take(v@.len() as int) =~= ascii_lowered(v@));
    }
    out
}

/// The body representations a page can be rendered in. A closed set: an
/// unknown name is an explicit error, never passed through to the service.
#[derive(Debug, Clone, Copy, PartialEq, Eq, Structural)]
pub enum BodyRenderFormat {
    Markdown,
    View,
    Storage,
    Adf,
}

pub open spec fn bad_body_format_text(s: Seq<char>) -> Seq<char> {
    "Invalid body format: "@ + s + ". Use markdown, view, storage, atlas_doc_format, or adf."@
}

/// The closed set a body format name falls in, trying the names in order.
pub open spec fn spec_body_render_format(low: Seq<char>) -> Option<BodyRenderFormat> {
    if low == "markdown"@ || low == "md"@ {
        Some(BodyRenderFormat::Markdown)
    } else if low == "view"@ {
        Some(BodyRenderFormat::View)
    } else if low == "storage"@ {
        Some(BodyRenderFormat::Storage)
    } else if low == "atlas_doc_format"@ || low == "adf"@ {
        Some(BodyRenderFormat::Adf)
    } else {
        None
    }
}

/// Reads a body format name, case-blind; anything outside the closed set is
/// refused with the accepted names.
pub fn parse_body_render_format(s: &str) -> (r: Result<BodyRenderFormat, String>)
    ensures
        match spec_body_render_format(ascii_lowered(s@)) {
            Some(f) => r == Ok::<BodyRenderFormat, String>(f),
            None => r matches Err(e) && e@ == bad_body_format_text(s@),
        },
{
    let sv = str_chars(s);
    let low = ascii_lower_chars(&sv);
    let markdown = str_chars("markdown");
    let md = str_chars("md");
    let view = str_chars("view");
    let storage = str_chars("storage");
    let adf_long = str_chars("atlas_doc_format");
    let adf = str_chars("adf");
    if crate::strutil::chars_eq(&low, &markdown) || crate::strutil::chars_eq(&low, &md) {
        Ok(BodyRenderFormat::Markdown)
    } else if crate::strutil::chars_eq(&low, &view) {
        Ok(BodyRenderFormat::View)
    } else if crate::strutil::chars_eq(&low, &storage) {
        Ok(BodyRenderFormat::Storage)
    } else if crate::strutil::chars_eq(&low, &adf_long) || crate::strutil::chars_eq(&low, &adf) {
        Ok(BodyRenderFormat::Adf)
    } else {
        let head = str_chars("Invalid body format: ");
        let tail = str_chars(". Use markdown, view, storage, atlas_doc_format, or adf.");
        let m1 = chars_concat(&head, &sv);
        let m2 = chars_concat(&m1, &tail);
        proof {
            assert(m2@ =~= bad_body_format_text(s@));
        }
        Err(chars_string(&m2))
    }
}

/// The formats a page can be exported in; a closed set as well.
#[derive(Debug, Clone, Copy, PartialEq, Eq, Structural)]
pub enum ExportFormat {
    Markdown,
    Storage,
    Adf,
}

pub open spec fn bad_export_format_text(s: Seq<char>) -> Seq<char> {
    "Invalid --format: "@ + s + ". Use md, storage, or adf."@
}

/// The closed set an export format name falls in, trying the names in order.
pub open spec fn spec_export_format(low: Seq<char>) -> Option<ExportFormat> {
    if low == "md"@ || low == "markdown"@ {
        Some(ExportFormat::Markdown)
    } else if low == "storage"@ {
        Some(ExportFormat::Storage)
    } else if low == "adf"@ || low == "atlas_doc_format"@ {
        Some(ExportFormat::Adf)
    } else {
        None
    }
}

/// Reads an export format name, case-blind; anything outside the closed set
/// is refused with the accepted names.
pub fn parse_export_format(s: &str) -> (r: Result<ExportFormat, String>)
    ensures
        match spec_export_format(ascii_lowered(s@)) {
            Some(f) => r == Ok::<ExportFormat, String>(f),
            None => r matches Err(e) && e@ == bad_export_format_text(s@),
        },
{
    let sv = str_chars(s);
    let low = ascii_lower_chars(&sv);
    let markdown = str_chars("markdown");
    let md = str_chars("md");
    let storage = str_chars("storage");
    let adf_long = str_chars("atlas_doc_format");
    let adf = str_chars("adf");
    if crate::strutil::chars_eq(&low, &md) || crate::strutil::chars_eq(&low, &markdown) {
        Ok(ExportFormat::Markdown)
    } else if crate::strutil::chars_eq(&low, &storage) {
        Ok(ExportFormat::Storage)
    } else if crate::strutil::chars_eq(&low, &adf) || crate::strutil::chars_eq(&low, &adf_long) {
        Ok(ExportFormat::Adf)
    } else {
        let head = str_chars("Invalid --format: ");
        let tail = str_chars(". Use md, storage, or adf.");
        let m1 = chars_concat(&head, &sv);
        let m2 = chars_concat(&m1, &tail);
        proof {
            assert(m2@ =~= bad_export_format_text(s@));
        }
        Err(chars_string(&m2))
    }
}

impl ExportFormat {
    /// The representation requested from the service.
    pub fn body_format_name(&self) -> (r: &'static str)
        ensures
            *self is Markdown ==> r@ == "view"@,
            *self is Storage ==> r@ == "storage"@,
            *self is Adf ==> r@ == "atlas_doc_format"@,
    {
        match self {
            ExportFormat::Markdown => "view",
            ExportFormat::Storage => "storage",
            ExportFormat::Adf => "atlas_doc_format",
        }
    }

    /// The content file written beside the export's metadata.
    pub fn content_file_name(&self) -> (r: &'static str)
        ensures
            *self is Markdown ==> r@ == "page.md"@,
            *self is Storage ==> r@ == "page.storage.html"@,
            *self is Adf ==> r@ == "page.adf.json"@,
    {
        match self {
            ExportFormat::Markdown => "page.md",
            ExportFormat::Storage => "page.storage.html",
            ExportFormat::Adf => "page.adf.json",
        }
    }
}

/// The folder one export lands in: the sanitized title and the page id.
pub open spec fn spec_export_folder(title: Seq<char>, page_id: Seq<char>) -> Seq<char> {
    crate::download::spec_sanitize_filename(title) + "--"@ + page_id
}

pub fn export_folder_name(title: &str, page_id: &str) -> (r: String)
    ensures
        r@ == spec_export_folder(title@, page_id@),
{
    let safe = crate::download::sanitize_filename(title);
    let sv = str_chars(safe.as_str());
    let sep = str_chars("--");
    let iv = str_chars(page_id);
    let m1 = chars_concat(&sv, &sep);
    let m2 = chars_concat(&m1, &iv);
    proof {
        assert(m2@ =~= spec_export_folder(title@, page_id@));
    }
    chars_string(&m2)
}

/// The body text a page response carries for one representation:
/// `body.<representation>.value`.
pub fn page_body_value(json: &JsonValue, representation: &str) -> (r: Option<String>)
    ensures
        match spec_get(*json, "body"@) {
            Some(b) => match spec_get(b, representation@) {
                Some(inner) => (match spec_str_field(inner, "value"@) {
                    Some(v) => r matches Some(x) && x@ == v,
                    None => r is None,
                }),
                None => r is None,
            },
            None => r is None,
        },
{
    match json.get("body") {
        Some(b) => match b.get(representation) {
            Some(inner) => match str_field(inner, "value") {
                Some(v) => Some(chars_string(&v)),
                None => None,
            },
            None => None,
        },
        None => None,
    }
}

} // verus!
