//! Human-readable messages for failed HTTP calls: a best-effort extraction
//! from the remote error body, collapsed onto one line and truncated.
use vstd::prelude::*;
use crate::jsonv::{JsonValue, spec_get, spec_str_field, str_field};
use crate::strutil::{
    chars_string, chars_trim, decimal_of, join_chars, join_with, split_words, str_chars, trimmed,
    u64_string, words_of,
};
use crate::errors::conflict_text;

verus! {

/// One line built from the words of `s`: single spaces between words, and at
/// most `max` characters before an ellipsis.
pub open spec fn spec_clean(s: Seq<char>, max: nat) -> Seq<char> {
    let j = join_with(words_of(s), seq![' ']);
    if j.len() <= max {
        j
    } else {
        j.take(max as int) + seq!['\u{2026}']
    }
}

/// The words of the input joined by single spaces, cut off with an ellipsis
/// after `max` characters.
#[verifier::loop_isolation(false)]
pub fn clean_text(v: &Vec<char>, max: usize) -> (r: Vec<char>)
    ensures
        r@ == spec_clean(v@, max as nat),
{
    let words = split_words(v);
    let mut sep: Vec<char> = Vec::new();
    sep.push(' ');
    proof {
        assert(sep@ =~= seq![' ']);
    }
    let joined = join_chars(&words, &sep);
    if joined.len() <= max {
        joined
    } else {
        let mut out: Vec<char> = Vec::new();
        let mut i: usize = 0;
        while i < max
            invariant
                i <= max < joined@.len(),
                out@ == joined@.subrange(0, i as int),
            decreases max - i,
        {
            out.push(joined[i]);
            i += 1;
            proof {
                assert(out@ =~= joined@.subrange(0, i as int));
            }
        }
        out.push('\u{2026}');
        proof {
            assert(out@ =~= joined@.take(max as int) + seq!['\u{2026}']);
        }
        out
    }
}

/// The reason phrase shown beside a status code, covering the codes the
/// service uses; anything else reads "Request failed".
pub open spec fn spec_status_reason(status: u16) -> Seq<char> {
    if status == 300 {
        "Multiple Choices"@
    } else if status == 301 {
        "Moved Permanently"@
    } else if status == 302 {
        "Found"@
    } else if status == 303 {
        "See Other"@
    } else if status == 304 {
        "Not Modified"@
    } else if status == 307 {
        "Temporary Redirect"@
    } else if status == 308 {
        "Permanent Redirect"@
    } else if status == 400 {
        "Bad Request"@
    } else if status == 401 {
        "Unauthorized"@
    } else if status == 402 {
        "Payment Required"@
    } else if status == 403 {
        "Forbidden"@
    } else if status == 404 {
        "Not Found"@
    } else if status == 405 {
        "Method Not Allowed"@
    } else if status == 406 {
        "Not Acceptable"@
    } else if status == 407 {
        "Proxy Authentication Required"@
    } else if status == 408 {
        "Request Timeout"@
    } else if status == 409 {
        "Conflict"@
    } else if status == 410 {
        "Gone"@
    } else if status == 411 {
        "Length Required"@
    } else if status == 412 {
        "Precondition Failed"@
    } else if status == 413 {
        "Payload Too Large"@
    } else if status == 414 {
        "URI Too Long"@
    } else if status == 415 {
        "Unsupported Media Type"@
    } else if status == 416 {
        "Range Not Satisfiable"@
    } else if status == 417 {
        "Expectation Failed"@
    } else if status == 421 {
        "Misdirected Request"@
    } else if status == 422 {
        "Unprocessable Entity"@
    } else if status == 423 {
        "Locked"@
    } else if status == 424 {
        "Failed Dependency"@
    } else if status == 426 {
        "Upgrade Required"@
    } else if status == 428 {
        "Precondition Required"@
    } else if status == 429 {
        "Too Many Requests"@
    } else if status == 431 {
        "Request Header Fields Too Large"@
    } else if status == 451 {
        "Unavailable For Legal Reasons"@
    } else if status == 500 {
        "Internal Server Error"@
    } else if status == 501 {
        "Not Implemented"@
    } else if status == 502 {
        "Bad Gateway"@
    } else if status == 503 {
        "Service Unavailable"@
    } else if status == 504 {
        "Gateway Timeout"@
    } else if status == 505 {
        "HTTP Version Not Supported"@
    } else if status == 507 {
        "Insufficient Storage"@
    } else if status == 511 {
        "Network Authentication Required"@
    } else {
        "Request failed"@
    }
}

pub fn status_reason(status: u16) -> (r: &'static str)
    ensures
        r@ == spec_status_reason(status),
{
    if status == 300 {
        "Multiple Choices"
    } else if status == 301 {
        "Moved Permanently"
    } else if status == 302 {
        "Found"
    } else if status == 303 {
        "See Other"
    } else if status == 304 {
        "Not Modified"
    } else if status == 307 {
        "Temporary Redirect"
    } else if status == 308 {
        "Permanent Redirect"
    } else if status == 400 {
        "Bad Request"
    } else if status == 401 {
        "Unauthorized"
    } else if status == 402 {
        "Payment Required"
    } else if status == 403 {
        "Forbidden"
    } else if status == 404 {
        "Not Found"
    } else if status == 405 {
        "Method Not Allowed"
    } else if status == 406 {
        "Not Acceptable"
    } else if status == 407 {
        "Proxy Authentication Required"
    } else if status == 408 {
        "Request Timeout"
    } else if status == 409 {
        "Conflict"
    } else if status == 410 {
        "Gone"
    } else if status == 411 {
        "Length Required"
    } else if status == 412 {
        "Precondition Failed"
    } else if status == 413 {
        "Payload Too Large"
    } else if status == 414 {
        "URI Too Long"
    } else if status == 415 {
        "Unsupported Media Type"
    } else if status == 416 {
        "Range Not Satisfiable"
    } else if status == 417 {
        "Expectation Failed"
    } else if status == 421 {
        "Misdirected Request"
    } else if status == 422 {
        "Unprocessable Entity"
    } else if status == 423 {
        "Locked"
    } else if status == 424 {
        "Failed Dependency"
    } else if status == 426 {
        "Upgrade Required"
    } else if status == 428 {
        "Precondition Required"
    } else if status == 429 {
        "Too Many Requests"
    } else if status == 431 {
        "Request Header Fields Too Large"
    } else if status == 451 {
        "Unavailable For Legal Reasons"
    } else if status == 500 {
        "Internal Server Error"
    } else if status == 501 {
        "Not Implemented"
    } else if status == 502 {
        "Bad Gateway"
    } else if status == 503 {
        "Service Unavailable"
    } else if status == 504 {
        "Gateway Timeout"
    } else if status == 505 {
        "HTTP Version Not Supported"
    } else if status == 507 {
        "Insufficient Storage"
    } else if status == 511 {
        "Network Authentication Required"
    } else {
        "Request failed"
    }
}

/// The remote error body's own message: the title of the first entry of an
/// `errors` array, or a top-level `message` field.
pub open spec fn spec_extracted(parsed: Option<JsonValue>) -> Option<Seq<char>> {
    match parsed {
        None => None,
        Some(v) => {
            let title = spec_error_title(v);
            if title is Some {
                title
            } else {
                spec_str_field(v, "message"@)
            }
        },
    }
}

pub open spec fn spec_error_title(v: JsonValue) -> Option<Seq<char>> {
    match spec_get(v, "errors"@) {
        Some(JsonValue::Arr(items)) => if items@.len() > 0 {
            spec_str_field(items@[0], "title"@)
        } else {
            None
        },
        _ => None,
    }
}

fn extracted_message(parsed: Option<&JsonValue>) -> (r: Option<Vec<char>>)
    ensures
        match (r, parsed) {
            (Some(s), Some(v)) => spec_extracted(Some(*v)) == Some(s@),
            (None, Some(v)) => spec_extracted(Some(*v)) is None,
            (None, None) => true,
            (Some(_), None) => false,
        },
{
    match parsed {
        None => None,
        Some(v) => {
            let title = match v.get("errors") {
                Some(errors) => match errors.as_array() {
                    Some(items) => {
                        if items.len() > 0 {
                            str_field(&items[0], "title")
                        } else {
                            None
                        }
                    },
                    None => None,
                },
                None => None,
            };
            match title {
                Some(t) => Some(t),
                None => str_field(v, "message"),
            }
        },
    }
}

pub open spec fn ascii_lower_char(c: char) -> char {
    if 'A' <= c && c <= 'Z' {
        (c as u32 + 32) as char
    } else {
        c
    }
}

/// Case-insensitive (ASCII) equality, used to recognize a generic
/// "not found" message.
pub open spec fn eq_ignore_ascii_case(a: Seq<char>, b: Seq<char>) -> bool {
    a.map_values(|c: char| ascii_lower_char(c)) == b.map_values(|c: char| ascii_lower_char(c))
}

fn chars_eq_ignore_ascii_case(a: &Vec<char>, b: &Vec<char>) -> (r: bool)
    ensures
        r == eq_ignore_ascii_case(a@, b@),
{
    let ghost la = a@.map_values(|c: char| ascii_lower_char(c));
    let ghost lb = b@.map_values(|c: char| ascii_lower_char(c));
    if a.len() != b.len() {
        proof {
            assert(la.len() != lb.len());
        }
        return false;
    }
    let mut i: usize = 0;
    while i < a.len()
        invariant
            a@.len() == b@.len(),
            la == a@.map_values(|c: char| ascii_lower_char(c)),
            lb == b@.map_values(|c: char| ascii_lower_char(c)),
            i <= a@.len(),
            forall|j: int| 0 <= j < i ==> la[j] == lb[j],
        decreases a@.len() - i,
    {
        let ca = a[i];
        let cb = b[i];
        let fa = if 'A' <= ca && ca <= 'Z' {
            char_lower(ca)
        } else {
            ca
        };
        let fb = if 'A' <= cb && cb <= 'Z' {
            char_lower(cb)
        } else {
            cb
        };
        if fa != fb {
            proof {
                assert(la[i as int] != lb[i as int]);
            }
            return false;
        }
        i += 1;
    }
    proof {
        assert(la =~= lb);
    }
    true
}

fn char_lower(c: char) -> (r: char)
    requires
        'A' <= c && c <= 'Z',
    ensures
        r == ascii_lower_char(c),
{
    let v: u32 = c as u32 + 32;
    match char::from_u32(v) {
        Some(x) => x,
        None => c,
    }
}

/// Whether the failure deserves a hint that credentials or permissions may
/// be the real problem: denied outright, or a bare "Not Found" that the
/// service also uses for permission failures.
pub open spec fn spec_needs_auth_hint(status: u16, extracted: Option<Seq<char>>) -> bool {
    status == 401 || status == 403 || (status == 404 && match extracted {
        Some(m) => eq_ignore_ascii_case(m, "not found"@),
        None => false,
    })
}

pub open spec fn auth_hint_text() -> Seq<char> {
    " (this may be an auth/permission issue; run `confcli auth status`)"@
}

/// The status code and reason phrase, as "404 Not Found".
pub open spec fn spec_status_line(status: u16) -> Seq<char> {
    decimal_of(status as nat) + seq![' '] + spec_status_reason(status)
}

/// The collapsed one-line message for a failed call: the specific conflict
/// wording on 409; otherwise the status line, then the extracted remote
/// message or a snippet of the raw body, then an auth hint where deserved.
pub open spec fn spec_friendly_error(status: u16, body: Seq<char>, parsed: Option<
    JsonValue,
>) -> Seq<char> {
    if status == 409 {
        conflict_text()
    } else {
        let extracted = spec_extracted(parsed);
        let base = match extracted {
            Some(m) => spec_status_line(status) + ": "@ + spec_clean(m, 240),
            None => if trimmed(body).len() == 0 {
                spec_status_line(status) + ": "@ + spec_status_reason(status)
            } else {
                spec_status_line(status) + ": "@ + spec_status_reason(status) + ": "@
                    + spec_clean(trimmed(body), 160)
            },
        };
        if spec_needs_auth_hint(status, extracted) {
            base + auth_hint_text()
        } else {
            base
        }
    }
}

/// One line describing a failed HTTP call, from its status, raw body text,
/// and the body parsed as JSON where that succeeded.
#[verifier::loop_isolation(false)]
#[verifier::rlimit(100)]
pub fn friendly_error(status: u16, body: &str, parsed: Option<&JsonValue>) -> (r: String)
    ensures
        r@ == spec_friendly_error(
            status,
            body@,
            match parsed {
                Some(v) => Some(*v),
                None => None,
            },
        ),
{
    if status == 409 {
        let r = String::from_str(
            "409 Conflict: the page was modified concurrently. Fetch the latest version and retry your update.",
        );
        return r;
    }
    let extracted = extracted_message(parsed);
    let mut line: Vec<char> = Vec::new();
    let digits = u64_string(status as u64);
    let digit_chars = str_chars(digits.as_str());
    let mut k: usize = 0;
    while k < digit_chars.len()
        invariant
            k <= digit_chars@.len(),
            line@ == digit_chars@.subrange(0, k as int),
        decreases digit_chars@.len() - k,
    {
        line.push(digit_chars[k]);
        k += 1;
        proof {
            assert(line@ =~= digit_chars@.subrange(0, k as int));
        }
    }
    proof {
        assert(line@ =~= decimal_of(status as nat));
    }
    line.push(' ');
    let reason = str_chars(status_reason(status));
    let mut k2: usize = 0;
    while k2 < reason.len()
        invariant
            k2 <= reason@.len(),
            line@ == decimal_of(status as nat) + seq![' '] + reason@.subrange(0, k2 as int),
        decreases reason@.len() - k2,
    {
        line.push(reason[k2]);
        k2 += 1;
        proof {
            assert(line@ =~= decimal_of(status as nat) + seq![' '] + reason@.subrange(
                0,
                k2 as int,
            ));
        }
    }
    proof {
        assert(reason@.subrange(0, reason@.len() as int) =~= reason@);
        assert(line@ =~= spec_status_line(status));
    }
    line.push(':');
    line.push(' ');
    proof {
        assert(line@ =~= spec_status_line(status) + ": "@) by {
            reveal_strlit(": ");
        }
    }
    match &extracted {
        Some(m) => {
            let cleaned = clean_text(m, 240);
            let mut k3: usize = 0;
            while k3 < cleaned.len()
                invariant
                    k3 <= cleaned@.len(),
                    line@ == spec_status_line(status) + ": "@ + cleaned@.subrange(0, k3 as int),
                decreases cleaned@.len() - k3,
            {
                line.push(cleaned[k3]);
                k3 += 1;
                proof {
                    assert(line@ =~= spec_status_line(status) + ": "@ + cleaned@.subrange(
                        0,
                        k3 as int,
                    ));
                }
            }
            proof {
                assert(cleaned@.subrange(0, cleaned@.len() as int) =~= cleaned@);
            }
        },
        None => {
            let body_chars = str_chars(body);
            let t = chars_trim(&body_chars);
            if t.len() == 0 {
                let mut k4: usize = 0;
                while k4 < reason.len()
                    invariant
                        k4 <= reason@.len(),
                        line@ == spec_status_line(status) + ": "@ + reason@.subrange(
                            0,
                            k4 as int,
                        ),
                    decreases reason@.len() - k4,
                {
                    line.push(reason[k4]);
                    k4 += 1;
                    proof {
                        assert(line@ =~= spec_status_line(status) + ": "@ + reason@.subrange(
                            0,
                            k4 as int,
                        ));
                    }
                }
                proof {
                    assert(reason@.subrange(0, reason@.len() as int) =~= reason@);
                }
            } else {
                let mut k5: usize = 0;
                while k5 < reason.len()
                    invariant
                        k5 <= reason@.len(),
                        line@ == spec_status_line(status) + ": "@ + reason@.subrange(
                            0,
                            k5 as int,
                        ),
                    decreases reason@.len() - k5,
                {
                    line.push(reason[k5]);
                    k5 += 1;
                    proof {
                        assert(line@ =~= spec_status_line(status) + ": "@ + reason@.subrange(
                            0,
                            k5 as int,
                        ));
                    }
                }
                proof {
                    assert(reason@.subrange(0, reason@.len() as int) =~= reason@);
                }
                line.push(':');
                line.push(' ');
                proof {
                    assert(line@ =~= spec_status_line(status) + ": "@ + spec_status_reason(
                        status,
                    ) + ": "@) by {
                        reveal_strlit(": ");
                    }
                }
                let snippet = clean_text(&t, 160);
                let mut k6: usize = 0;
                while k6 < snippet.len()
                    invariant
                        k6 <= snippet@.len(),
                        line@ == spec_status_line(status) + ": "@ + spec_status_reason(status)
                            + ": "@ + snippet@.subrange(0, k6 as int),
                    decreases snippet@.len() - k6,
                {
                    line.push(snippet[k6]);
                    k6 += 1;
                    proof {
                        assert(line@ =~= spec_status_line(status) + ": "@ + spec_status_reason(
                            status,
                        ) + ": "@ + snippet@.subrange(0, k6 as int));
                    }
                }
                proof {
                    assert(snippet@.subrange(0, snippet@.len() as int) =~= snippet@);
                }
            }
        },
    }
    let hint = match &extracted {
        Some(m) => {
            if status == 401 || status == 403 {
                true
            } else if status == 404 {
                let probe = str_chars("not found");
                chars_eq_ignore_ascii_case(m, &probe)
            } else {
                false
            }
        },
        None => status == 401 || status == 403,
    };
    if hint {
        let hint_text = str_chars(
            " (this may be an auth/permission issue; run `confcli auth status`)",
        );
        let ghost before = line@;
        let mut k7: usize = 0;
        while k7 < hint_text.len()
            invariant
                k7 <= hint_text@.len(),
                line@ == before + hint_text@.subrange(0, k7 as int),
            decreases hint_text@.len() - k7,
        {
            line.push(hint_text[k7]);
            k7 += 1;
            proof {
                assert(line@ =~= before + hint_text@.subrange(0, k7 as int));
            }
        }
        proof {
            assert(hint_text@.subrange(0, hint_text@.len() as int) =~= hint_text@);
        }
    }
    chars_string(&line)
}

} // verus!
