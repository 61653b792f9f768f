//! Response headers, modelled as ordered name/value pairs with
//! lower-case names.
use vstd::prelude::*;
use crate::strutil::{chars_eq, str_chars, chars_trim, trimmed};

verus! {

/// The value of the first header named `name`, scanning in order.
pub open spec fn spec_header(headers: Seq<(String, String)>, name: Seq<char>) -> Option<
    Seq<char>,
>
    decreases headers.len(),
{
    if headers.len() == 0 {
        None
    } else if headers[0].0@ == name {
        Some(headers[0].1@)
    } else {
        spec_header(headers.drop_first(), name)
    }
}

/// The first header named `name`, if any.
#[verifier::loop_isolation(false)]
pub fn header_value<'a>(headers: &'a Vec<(String, String)>, name: &str) -> (r: Option<
    &'a String,
>)
    ensures
        match r {
            Some(v) => spec_header(headers@, name@) == Some(v@),
            None => spec_header(headers@, name@) is None,
        },
{
    let name_chars = str_chars(name);
    let ghost all = headers@;
    proof {
        assert(all.subrange(0, all.len() as int) =~= all);
    }
    let mut i: usize = 0;
    while i < headers.len()
        invariant
            i <= all.len(),
            spec_header(all, name@) == spec_header(all.subrange(i as int, all.len() as int), name@),
        decreases all.len() - i,
    {
        let ghost rest = all.subrange(i as int, all.len() as int);
        let key = str_chars(headers[i].0.as_str());
        if chars_eq(&key, &name_chars) {
            proof {
                assert(rest[0] == all[i as int]);
                assert(spec_header(rest, name@) == Some(rest[0].1@));
            }
            return Some(&headers[i].1);
        }
        proof {
            assert(rest[0] == all[i as int]);
            assert(rest.drop_first() =~= all.subrange(i + 1, all.len() as int));
        }
        i += 1;
    }
    proof {
        assert(all.subrange(i as int, all.len() as int) =~= Seq::<(String, String)>::empty());
    }
    None
}

/// A trace identifier from the first diagnostic header that carries a
/// non-empty value, tried in a fixed priority order.
pub open spec fn spec_request_id(headers: Seq<(String, String)>) -> Option<Seq<char>> {
    if nonempty_header(headers, "x-request-id"@) is Some {
        nonempty_header(headers, "x-request-id"@)
    } else if nonempty_header(headers, "x-arequestid"@) is Some {
        nonempty_header(headers, "x-arequestid"@)
    } else if nonempty_header(headers, "x-trace-id"@) is Some {
        nonempty_header(headers, "x-trace-id"@)
    } else if nonempty_header(headers, "x-b3-traceid"@) is Some {
        nonempty_header(headers, "x-b3-traceid"@)
    } else {
        nonempty_header(headers, "traceparent"@)
    }
}

/// The trimmed value of the named header, where that is non-empty.
pub open spec fn nonempty_header(headers: Seq<(String, String)>, name: Seq<char>) -> Option<
    Seq<char>,
> {
    match spec_header(headers, name) {
        Some(v) => if trimmed(v).len() > 0 {
            Some(trimmed(v))
        } else {
            None
        },
        None => None,
    }
}

fn nonempty_header_value(headers: &Vec<(String, String)>, name: &str) -> (r: Option<Vec<char>>)
    ensures
        match r {
            Some(v) => nonempty_header(headers@, name@) == Some(v@),
            None => nonempty_header(headers@, name@) is None,
        },
{
    match header_value(headers, name) {
        Some(v) => {
            let cs = str_chars(v.as_str());
            let t = chars_trim(&cs);
            if t.len() > 0 {
                Some(t)
            } else {
                None
            }
        },
        None => None,
    }
}

/// A trace identifier from the response headers, for diagnostics.
pub fn request_id(headers: &Vec<(String, String)>) -> (r: Option<Vec<char>>)
    ensures
        match r {
            Some(v) => spec_request_id(headers@) == Some(v@),
            None => spec_request_id(headers@) is None,
        },
{
    match nonempty_header_value(headers, "x-request-id") {
        Some(v) => Some(v),
        None => match nonempty_header_value(headers, "x-arequestid") {
            Some(v) => Some(v),
            None => match nonempty_header_value(headers, "x-trace-id") {
                Some(v) => Some(v),
                None => match nonempty_header_value(headers, "x-b3-traceid") {
                    Some(v) => Some(v),
                    None => nonempty_header_value(headers, "traceparent"),
                },
            },
        },
    }
}

} // verus!
