//! A closed model of the JSON documents the remote service returns.
//!
//! The service's responses are decoded into this type at the edge of the
//! program; everything the library reads out of a response is a plain value.
//! Numbers are modelled as signed integers: the fields the library reads
//! (ids, versions, positions, sizes) are integral.
use vstd::prelude::*;
use crate::strutil::{chars_eq, chars_string, decimal_of, str_chars, u64_string};

verus! {

/// Relies on std's `i64::unsigned_abs`: the absolute value, without wrapping.
pub assume_specification[ i64::unsigned_abs ](x: i64) -> (r: u64)
    ensures
        r as int == if x >= 0 {
            x as int
        } else {
            -(x as int)
        },
;

#[derive(Debug, PartialEq)]
pub enum JsonValue {
    Null,
    Bool(bool),
    Int(i64),
    Str(String),
    Arr(Vec<JsonValue>),
    Obj(Vec<(String, JsonValue)>),
}

/// The first value bound to `key`, scanning entries in order.
pub open spec fn spec_obj_get(entries: Seq<(String, JsonValue)>, key: Seq<char>) -> Option<
    JsonValue,
>
    decreases entries.len(),
{
    if entries.len() == 0 {
        None
    } else if entries[0].0@ == key {
        Some(entries[0].1)
    } else {
        spec_obj_get(entries.drop_first(), key)
    }
}

/// What `get` returns: a field of an object, `None` on anything else.
pub open spec fn spec_get(v: JsonValue, key: Seq<char>) -> Option<JsonValue> {
    match v {
        JsonValue::Obj(entries) => spec_obj_get(entries@, key),
        _ => None,
    }
}

pub open spec fn spec_as_str(v: JsonValue) -> Option<Seq<char>> {
    match v {
        JsonValue::Str(s) => Some(s@),
        _ => None,
    }
}

pub open spec fn spec_as_i64(v: JsonValue) -> Option<i64> {
    match v {
        JsonValue::Int(n) => Some(n),
        _ => None,
    }
}

pub open spec fn spec_as_bool(v: JsonValue) -> Option<bool> {
    match v {
        JsonValue::Bool(b) => Some(b),
        _ => None,
    }
}

/// The decimal numeral of a signed number.
pub open spec fn decimal_i64(n: int) -> Seq<char> {
    if n >= 0 {
        decimal_of(n as nat)
    } else {
        seq!['-'] + decimal_of((-n) as nat)
    }
}

/// What `json_str` returns for a value: its string, its numeral, its
/// truth word, and the empty string for everything else.
pub open spec fn spec_scalar_string(v: JsonValue) -> Seq<char> {
    match v {
        JsonValue::Str(s) => s@,
        JsonValue::Int(n) => decimal_i64(n as int),
        JsonValue::Bool(b) => if b {
            "true"@
        } else {
            "false"@
        },
        _ => Seq::<char>::empty(),
    }
}

impl JsonValue {
    /// A field of an object, or `None` when the value is not an object or
    /// has no such field.
    pub fn get<'a>(&'a self, key: &str) -> (r: Option<&'a JsonValue>)
        ensures
            match r {
                Some(x) => spec_get(*self, key@) == Some(*x),
                None => spec_get(*self, key@) is None,
            },
    {
        let key_chars = str_chars(key);
        match self {
            JsonValue::Obj(entries) => {
                let ghost all = entries@;
                proof {
                    assert(all.subrange(0, all.len() as int) =~= all);
                }
                let mut i: usize = 0;
                while i < entries.len()
                    invariant
                        *self is Obj,
                        self->Obj_0@ == all,
                        i <= entries@.len(),
                        all == entries@,
                        key_chars@ == key@,
                        spec_obj_get(all, key@) == spec_obj_get(
                            all.subrange(i as int, all.len() as int),
                            key@,
                        ),
                    decreases entries@.len() - i,
                {
                    let ghost rest = all.subrange(i as int, all.len() as int);
                    let entry_key = str_chars(entries[i].0.as_str());
                    if chars_eq(&entry_key, &key_chars) {
                        proof {
                            assert(rest[0] == all[i as int]);
                            assert(spec_obj_get(rest, key@) == Some(rest[0].1));
                            assert(*self is Obj);
                            assert(self->Obj_0@ == all);
                            assert(spec_get(*self, key@) == spec_obj_get(all, key@));
                        }
                        return Some(&entries[i].1);
                    }
                    proof {
                        assert(rest[0] == all[i as int]);
                        assert(rest.drop_first() =~= all.subrange(i + 1, all.len() as int));
                    }
                    i += 1;
                }
                proof {
                    assert(all.subrange(i as int, all.len() as int) =~= Seq::<(
                        String,
                        JsonValue,
                    )>::empty());
                }
                None
            },
            _ => None,
        }
    }

    pub fn as_str<'a>(&'a self) -> (r: Option<&'a str>)
        ensures
            match r {
                Some(s) => spec_as_str(*self) == Some(s@),
                None => spec_as_str(*self) is None,
            },
    {
        match self {
            JsonValue::Str(s) => Some(s.as_str()),
            _ => None,
        }
    }

    pub fn as_i64(&self) -> (r: Option<i64>)
        ensures
            r == spec_as_i64(*self),
    {
        match self {
            JsonValue::Int(n) => Some(*n),
            _ => None,
        }
    }

    pub fn as_bool(&self) -> (r: Option<bool>)
        ensures
            r == spec_as_bool(*self),
    {
        match self {
            JsonValue::Bool(b) => Some(*b),
            _ => None,
        }
    }

    pub fn as_array<'a>(&'a self) -> (r: Option<&'a Vec<JsonValue>>)
        ensures
            match r {
                Some(items) => self matches JsonValue::Arr(a) && a == *items,
                None => !(self matches JsonValue::Arr(_)),
            },
    {
        match self {
            JsonValue::Arr(items) => Some(items),
            _ => None,
        }
    }

    pub fn is_array(&self) -> (r: bool)
        ensures
            r == (self matches JsonValue::Arr(_)),
    {
        match self {
            JsonValue::Arr(_) => true,
            _ => false,
        }
    }
}

/// The string bound to `key` in `v`, where that field is a string.
pub open spec fn spec_str_field(v: JsonValue, key: Seq<char>) -> Option<Seq<char>> {
    match spec_get(v, key) {
        Some(JsonValue::Str(s)) => Some(s@),
        _ => None,
    }
}

/// The string field named `key`, as characters.
pub fn str_field(v: &JsonValue, key: &str) -> (r: Option<Vec<char>>)
    ensures
        match r {
            Some(s) => spec_str_field(*v, key@) == Some(s@),
            None => spec_str_field(*v, key@) is None,
        },
{
    match v.get(key) {
        Some(field) => match field.as_str() {
            Some(s) => Some(str_chars(s)),
            None => None,
        },
        None => None,
    }
}

/// Decimal formatting of a signed number.
pub fn i64_string(n: i64) -> (r: String)
    ensures
        r@ == decimal_i64(n as int),
{
    if n >= 0 {
        u64_string(n as u64)
    } else {
        let mag: u64 = n.unsigned_abs();
        let digits = u64_string(mag);
        let mut v: Vec<char> = Vec::new();
        v.push('-');
        let tail = str_chars(digits.as_str());
        let mut i: usize = 0;
        while i < tail.len()
            invariant
                i <= tail@.len(),
                v@ == seq!['-'] + tail@.subrange(0, i as int),
        decreases tail@.len() - i,
        {
            v.push(tail[i]);
            i += 1;
            proof {
                assert(v@ =~= seq!['-'] + tail@.subrange(0, i as int));
            }
        }
        proof {
            assert(v@ =~= seq!['-'] + tail@);
        }
        chars_string(&v)
    }
}

/// A scalar field rendered as text, and the empty string where the field is
/// missing or not a scalar.
pub fn json_str(v: &JsonValue, key: &str) -> (r: String)
    ensures
        match spec_get(*v, key@) {
            Some(x) => r@ == spec_scalar_string(x),
            None => r@ == Seq::<char>::empty(),
        },
{
    match v.get(key) {
        Some(field) => match field {
            JsonValue::Str(s) => s.clone(),
            JsonValue::Int(n) => i64_string(*n),
            JsonValue::Bool(b) => {
                if *b {
                    let r = String::from_str("true");
                    r
                } else {
                    let r = String::from_str("false");
                    r
                }
            },
            _ => String::new(),
        },
        None => String::new(),
    }
}

} // verus!
