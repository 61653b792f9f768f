//! Verified helpers over characters, character sequences and decimal numerals.
//!
//! Text is manipulated as `Vec<char>`, whose view is the same `Seq<char>` as a
//! `String`'s, so contracts written over one carry over to the other.
use vstd::prelude::*;

verus! {

/// Relies on std's `char::from_u32`: returns `Some` exactly on Unicode scalar
/// values (code points outside the surrogate range and at most 0x10FFFF).
pub assume_specification[ char::from_u32 ](v: u32) -> (r: Option<char>)
    ensures
        (0xD800 <= v < 0xE000 || v > 0x10FFFF) ==> r is None,
        (v < 0xD800 || (0xE000 <= v <= 0x10FFFF)) ==> r == Some(v as char),
;

/// Relies on std's `String::push`: appends exactly one character.
pub assume_specification[ String::push ](s: &mut String, c: char)
    ensures
        final(s)@ == old(s)@.push(c),
;

/// The characters of a string slice, as a vector with the same view.
pub fn str_chars(s: &str) -> (r: Vec<char>)
    ensures
        r@ == s@,
{
    let n = s.unicode_len();
    let mut r: Vec<char> = Vec::new();
    let mut i: usize = 0;
    while i < n
        invariant
            n == s@.len(),
            i <= n,
            r@ == s@.subrange(0, i as int),
        decreases n - i,
    {
        r.push(s.get_char(i));
        i += 1;
        proof {
            assert(r@ =~= s@.subrange(0, i as int));
        }
    }
    proof {
        assert(r@ =~= s@);
    }
    r
}

/// A string with the same view as the given characters.
pub fn chars_string(v: &Vec<char>) -> (r: String)
    ensures
        r@ == v@,
{
    let mut r = String::new();
    let mut i: usize = 0;
    while i < v.len()
        invariant
            i <= v@.len(),
            r@ == v@.subrange(0, i as int),
        decreases v@.len() - i,
    {
        r.push(v[i]);
        i += 1;
        proof {
            assert(r@ =~= v@.subrange(0, i as int));
        }
    }
    proof {
        assert(r@ =~= v@);
    }
    r
}

/// Equality of two character vectors, decided element by element.
pub fn chars_eq(a: &Vec<char>, b: &Vec<char>) -> (r: bool)
    ensures
        r == (a@ == b@),
{
    if a.len() != b.len() {
        proof {
            assert(a@.len() != b@.len());
        }
        return false;
    }
    let mut i: usize = 0;
    while i < a.len()
        invariant
            a@.len() == b@.len(),
            i <= a@.len(),
            forall|j: int| 0 <= j < i ==> a@[j] == b@[j],
        decreases a@.len() - i,
    {
        if a[i] != b[i] {
            return false;
        }
        i += 1;
    }
    proof {
        assert(a@ =~= b@);
    }
    true
}

/// Whether `a` begins with `prefix`.
pub open spec fn starts_with(a: Seq<char>, prefix: Seq<char>) -> bool {
    prefix.len() <= a.len() && a.subrange(0, prefix.len() as int) == prefix
}

pub fn chars_starts_with(a: &Vec<char>, prefix: &Vec<char>) -> (r: bool)
    ensures
        r == starts_with(a@, prefix@),
{
    if prefix.len() > a.len() {
        return false;
    }
    let mut i: usize = 0;
    while i < prefix.len()
        invariant
            prefix@.len() <= a@.len(),
            i <= prefix@.len(),
            forall|j: int| 0 <= j < i ==> a@[j] == prefix@[j],
        decreases prefix@.len() - i,
    {
        if a[i] != prefix[i] {
            proof {
                assert(a@.subrange(0, prefix@.len() as int)[i as int] != prefix@[i as int]);
            }
            return false;
        }
        i += 1;
    }
    proof {
        assert(a@.subrange(0, prefix@.len() as int) =~= prefix@);
    }
    true
}

/// Whether `a` ends with `suffix`.
pub open spec fn ends_with(a: Seq<char>, suffix: Seq<char>) -> bool {
    suffix.len() <= a.len() && a.subrange(a.len() - suffix.len(), a.len() as int) == suffix
}

pub fn chars_ends_with(a: &Vec<char>, suffix: &Vec<char>) -> (r: bool)
    ensures
        r == ends_with(a@, suffix@),
{
    if suffix.len() > a.len() {
        return false;
    }
    let n = a.len();
    let off = n - suffix.len();
    let mut i: usize = 0;
    while i < suffix.len()
        invariant
            suffix@.len() <= a@.len(),
            n == a@.len(),
            off == a@.len() - suffix@.len(),
            i <= suffix@.len(),
            forall|j: int| 0 <= j < i ==> a@[off + j] == suffix@[j],
        decreases suffix@.len() - i,
    {
        proof {
            assert(off + i < a@.len());
        }
        if a[off + i] != suffix[i] {
            proof {
                assert(a@.subrange(a@.len() - suffix@.len(), a@.len() as int)[i as int]
                    != suffix@[i as int]);
            }
            return false;
        }
        i += 1;
    }
    proof {
        assert(a@.subrange(a@.len() - suffix@.len(), a@.len() as int) =~= suffix@);
    }
    true
}

/// Whether `needle` occurs in `hay` as a contiguous run.
pub open spec fn contains_sub(hay: Seq<char>, needle: Seq<char>) -> bool {
    exists|i: int|
        0 <= i && i + needle.len() <= hay.len() && #[trigger] hay.subrange(i, i + needle.len())
            == needle
}

pub fn chars_contains_sub(hay: &Vec<char>, needle: &Vec<char>) -> (r: bool)
    ensures
        r == contains_sub(hay@, needle@),
{
    if needle.len() == 0 {
        proof {
            assert(hay@.subrange(0, 0 + needle@.len() as int) =~= needle@);
        }
        return true;
    }
    if needle.len() > hay.len() {
        return false;
    }
    let hn = hay.len();
    let last = hn - needle.len();
    let mut i: usize = 0;
    while i <= last
        invariant
            1 <= needle@.len() <= hay@.len(),
            hn == hay@.len(),
            last == hay@.len() - needle@.len(),
            i <= last + 1,
            forall|k: int|
                0 <= k < i ==> #[trigger] hay@.subrange(k, k + needle@.len()) != needle@,
        decreases last + 1 - i,
    {
        let mut j: usize = 0;
        let mut here = true;
        while j < needle.len()
            invariant
                hn == hay@.len(),
                i <= hay@.len() - needle@.len(),
                j <= needle@.len(),
                here == (forall|t: int| 0 <= t < j ==> hay@[i + t] == needle@[t]),
            decreases needle@.len() - j,
        {
            proof {
                assert(i + j < hay@.len());
            }
            if hay[i + j] != needle[j] {
                here = false;
                proof {
                    assert(hay@[i + j as int] != needle@[j as int]);
                }
                j = needle.len();
            } else {
                j += 1;
            }
        }
        if here {
            proof {
                assert(hay@.subrange(i as int, i + needle@.len()) =~= needle@);
            }
            return true;
        }
        proof {
            if hay@.subrange(i as int, i + needle@.len()) == needle@ {
                assert(forall|t: int|
                    0 <= t < needle@.len() ==> #[trigger] hay@.subrange(
                        i as int,
                        i + needle@.len(),
                    )[t] == hay@[i + t]);
                assert(false);
            }
        }
        i += 1;
    }
    false
}

pub open spec fn is_digit_char(c: char) -> bool {
    '0' <= c && c <= '9'
}

pub fn digit_char(c: char) -> (r: bool)
    ensures
        r == is_digit_char(c),
{
    '0' <= c && c <= '9'
}

pub open spec fn all_digits(s: Seq<char>) -> bool {
    forall|i: int| 0 <= i < s.len() ==> is_digit_char(#[trigger] s[i])
}

pub fn chars_all_digits(v: &Vec<char>) -> (r: bool)
    ensures
        r == all_digits(v@),
{
    let mut i: usize = 0;
    while i < v.len()
        invariant
            i <= v@.len(),
            forall|j: int| 0 <= j < i ==> is_digit_char(#[trigger] v@[j]),
        decreases v@.len() - i,
    {
        if !digit_char(v[i]) {
            return false;
        }
        i += 1;
    }
    true
}

pub open spec fn digit_of(c: char) -> nat
    recommends
        is_digit_char(c),
{
    (c as nat - '0' as nat) as nat
}

pub open spec fn char_of_digit(d: nat) -> char
    recommends
        d < 10,
{
    (d + '0' as nat) as char
}

fn char_of_digit_exec(d: u8) -> (r: char)
    requires
        d < 10,
    ensures
        r == char_of_digit(d as nat),
{
    match d {
        0 => '0',
        1 => '1',
        2 => '2',
        3 => '3',
        4 => '4',
        5 => '5',
        6 => '6',
        7 => '7',
        8 => '8',
        _ => '9',
    }
}

/// The decimal numeral of `n`, without leading zeros (just "0" for zero).
pub open spec fn decimal_of(n: nat) -> Seq<char>
    decreases n,
{
    if n < 10 {
        seq![char_of_digit(n)]
    } else {
        decimal_of(n / 10) + seq![char_of_digit(n % 10)]
    }
}

/// Decimal formatting of an unsigned number.
#[verifier::rlimit(50)]
pub fn u64_string(n: u64) -> (r: String)
    ensures
        r@ == decimal_of(n as nat),
{
    let mut rev: Vec<char> = Vec::new();
    let mut m: u64 = n;
    loop
        invariant_except_break
            m > 0 ==> decimal_of(n as nat) == decimal_of(m as nat) + rev@.reverse(),
            m == 0 ==> n == 0 && rev@.len() == 0,
        ensures
            decimal_of(n as nat) == rev@.reverse(),
        decreases m,
    {
        let d: u64 = m % 10;
        let c = char_of_digit_exec(d as u8);
        let ghost prev = m as nat;
        let ghost prev_rev = rev@;
        rev.push(c);
        m = m / 10;
        proof {
            assert(rev@.reverse() =~= seq![char_of_digit((prev % 10) as nat)]
                + prev_rev.reverse());
            if prev >= 10 {
                assert(decimal_of(prev) == decimal_of(prev / 10) + seq![
                    char_of_digit(prev % 10),
                ]);
                assert(decimal_of((m as nat)) + rev@.reverse() =~= decimal_of(prev)
                    + prev_rev.reverse());
            } else {
                assert(decimal_of(prev) =~= seq![char_of_digit(prev % 10)]);
                if n == 0 {
                    assert(rev@.reverse() =~= decimal_of(n as nat));
                } else {
                    assert(rev@.reverse() =~= decimal_of(prev) + prev_rev.reverse());
                }
            }
        }
        if m == 0 {
            break;
        }
    }
    let ghost digits = rev@.reverse();
    proof {
        assert(decimal_of(n as nat) =~= digits);
    }
    let mut out: Vec<char> = Vec::new();
    let mut i: usize = rev.len();
    while i > 0
        invariant
            i <= rev@.len(),
            digits == rev@.reverse(),
            out@ == digits.subrange(0, (rev@.len() - i) as int),
        decreases i,
    {
        i -= 1;
        let c = rev[i];
        proof {
            assert(digits[(rev@.len() - i - 1) as int] == rev@[i as int]);
        }
        out.push(c);
        proof {
            assert(out@ =~= digits.subrange(0, (rev@.len() - i) as int));
        }
    }
    proof {
        assert(out@ =~= digits);
    }
    chars_string(&out)
}

/// The value of a digit string, most significant digit first.
pub open spec fn digits_value(s: Seq<char>) -> nat
    decreases s.len(),
{
    if s.len() == 0 {
        0
    } else {
        digits_value(s.drop_last()) * 10 + digit_of(s.last())
    }
}

/// What parsing a decimal numeral yields: `Some` exactly on non-empty,
/// all-digit strings whose value fits in a `u64`.
pub open spec fn parse_u64_of(s: Seq<char>) -> Option<u64> {
    if s.len() > 0 && all_digits(s) && digits_value(s) <= u64::MAX {
        Some(digits_value(s) as u64)
    } else {
        None
    }
}

proof fn lemma_digits_value_prefix_le(s: Seq<char>, j: int)
    requires
        0 <= j <= s.len(),
    ensures
        digits_value(s.subrange(0, j)) <= digits_value(s),
    decreases s.len() - j,
{
    if j < s.len() {
        let t = s.subrange(0, j + 1);
        assert(t.drop_last() =~= s.subrange(0, j));
        assert(digits_value(s.subrange(0, j)) <= digits_value(t));
        lemma_digits_value_prefix_le(s, j + 1);
        assert(s.subrange(0, s.len() as int) =~= s);
    } else {
        assert(s.subrange(0, j) =~= s);
    }
}

/// Decimal parsing of an unsigned number.
pub fn parse_u64(v: &Vec<char>) -> (r: Option<u64>)
    ensures
        r == parse_u64_of(v@),
{
    if v.len() == 0 {
        return None;
    }
    let mut acc: u64 = 0;
    let mut i: usize = 0;
    while i < v.len()
        invariant
            v@.len() > 0,
            i <= v@.len(),
            all_digits(v@.subrange(0, i as int)),
            acc == digits_value(v@.subrange(0, i as int)),
        decreases v@.len() - i,
    {
        let c = v[i];
        if !digit_char(c) {
            return None;
        }
        let d: u64 = (c as u32 - '0' as u32) as u64;
        let ghost prefix = v@.subrange(0, i as int);
        let ghost prefix1 = v@.subrange(0, i + 1);
        proof {
            assert(prefix1.drop_last() =~= prefix);
            assert(digits_value(prefix1) == digits_value(prefix) * 10 + digit_of(c));
        }
        let shifted = match acc.checked_mul(10) {
            Some(x) => x,
            None => {
                proof {
                    lemma_digits_value_prefix_le(v@, i + 1);
                }
                return None;
            },
        };
        acc = match shifted.checked_add(d) {
            Some(x) => x,
            None => {
                proof {
                    lemma_digits_value_prefix_le(v@, i + 1);
                }
                return None;
            },
        };
        i += 1;
    }
    proof {
        assert(v@.subrange(0, v@.len() as int) =~= v@);
    }
    Some(acc)
}

/// The whitespace characters that trimming removes (the Unicode white-space
/// set that std's `str::trim` uses).
pub open spec fn is_white(c: char) -> bool {
    c == ' ' || c == '\t' || c == '\n' || c == '\r' || c == '\u{0B}' || c == '\u{0C}'
        || c == '\u{85}' || c == '\u{A0}' || c == '\u{1680}' || ('\u{2000}' <= c
        && c <= '\u{200A}') || c == '\u{2028}' || c == '\u{2029}' || c == '\u{202F}'
        || c == '\u{205F}' || c == '\u{3000}'
}

pub fn white_char(c: char) -> (r: bool)
    ensures
        r == is_white(c),
{
    c == ' ' || c == '\t' || c == '\n' || c == '\r' || c == '\u{0B}' || c == '\u{0C}'
        || c == '\u{85}' || c == '\u{A0}' || c == '\u{1680}' || ('\u{2000}' <= c
        && c <= '\u{200A}') || c == '\u{2028}' || c == '\u{2029}' || c == '\u{202F}'
        || c == '\u{205F}' || c == '\u{3000}'
}

/// `s` with leading and trailing whitespace removed.
pub open spec fn trimmed(s: Seq<char>) -> Seq<char>
    decreases s.len(),
{
    if s.len() == 0 {
        s
    } else if is_white(s[0]) {
        trimmed(s.subrange(1, s.len() as int))
    } else if is_white(s.last()) {
        trimmed(s.drop_last())
    } else {
        s
    }
}

pub fn chars_trim(v: &Vec<char>) -> (r: Vec<char>)
    ensures
        r@ == trimmed(v@),
{
    let mut lo: usize = 0;
    let mut hi: usize = v.len();
    proof {
        assert(v@.subrange(0, v@.len() as int) =~= v@);
    }
    while lo < hi && white_char(v[lo])
        invariant
            lo <= hi <= v@.len(),
            trimmed(v@) == trimmed(v@.subrange(lo as int, hi as int)),
            hi == v@.len(),
        decreases hi - lo,
    {
        proof {
            let cur = v@.subrange(lo as int, hi as int);
            assert(cur.subrange(1, cur.len() as int) =~= v@.subrange(lo + 1, hi as int));
        }
        lo += 1;
    }
    while lo < hi && white_char(v[hi - 1])
        invariant
            lo <= hi <= v@.len(),
            trimmed(v@) == trimmed(v@.subrange(lo as int, hi as int)),
            lo < hi ==> !is_white(v@[lo as int]),
        decreases hi - lo,
    {
        proof {
            let cur = v@.subrange(lo as int, hi as int);
            assert(cur.drop_last() =~= v@.subrange(lo as int, hi - 1));
            assert(cur[0] == v@[lo as int]);
        }
        hi -= 1;
    }
    let mut r: Vec<char> = Vec::new();
    let mut i: usize = lo;
    while i < hi
        invariant
            lo <= i <= hi <= v@.len(),
            r@ == v@.subrange(lo as int, i as int),
        decreases hi - i,
    {
        r.push(v[i]);
        i += 1;
        proof {
            assert(r@ =~= v@.subrange(lo as int, i as int));
        }
    }
    proof {
        let cur = v@.subrange(lo as int, hi as int);
        if lo < hi {
            assert(cur[0] == v@[lo as int]);
            assert(cur.last() == v@[hi - 1]);
            assert(trimmed(cur) == cur);
        } else {
            assert(cur =~= Seq::<char>::empty());
        }
        assert(r@ =~= cur);
    }
    r
}

/// The index of the first occurrence of `c`, or the length.
pub open spec fn find_char_idx(s: Seq<char>, c: char) -> int
    decreases s.len(),
{
    if s.len() == 0 {
        0
    } else if s[0] == c {
        0
    } else {
        1 + find_char_idx(s.drop_first(), c)
    }
}

pub proof fn lemma_find_char_idx_bounds(s: Seq<char>, c: char)
    ensures
        0 <= find_char_idx(s, c) <= s.len(),
        forall|t: int| 0 <= t < find_char_idx(s, c) ==> #[trigger] s[t] != c,
        find_char_idx(s, c) < s.len() ==> s[find_char_idx(s, c)] == c,
    decreases s.len(),
{
    if s.len() > 0 && s[0] != c {
        lemma_find_char_idx_bounds(s.drop_first(), c);
        assert forall|t: int| 0 <= t < find_char_idx(s, c) implies #[trigger] s[t] != c by {
            if t >= 1 {
                assert(s.drop_first()[t - 1] != c);
                assert(s.drop_first()[t - 1] == s[t]);
            }
        }
    }
}

/// The index of the first occurrence of `c`, where there is one.
#[verifier::loop_isolation(false)]
pub fn chars_find(v: &Vec<char>, c: char) -> (r: Option<usize>)
    ensures
        match r {
            Some(i) => i == find_char_idx(v@, c) && i < v@.len(),
            None => find_char_idx(v@, c) == v@.len(),
        },
{
    let mut i: usize = 0;
    while i < v.len()
        invariant
            i <= v@.len(),
            forall|t: int| 0 <= t < i ==> #[trigger] v@[t] != c,
        decreases v@.len() - i,
    {
        if v[i] == c {
            proof {
                lemma_find_char_idx_bounds(v@, c);
                if find_char_idx(v@, c) < i {
                    assert(v@[find_char_idx(v@, c)] == c);
                    assert(false);
                }
                if find_char_idx(v@, c) > i {
                    assert(v@[i as int] != c);
                    assert(false);
                }
            }
            return Some(i);
        }
        i += 1;
    }
    proof {
        lemma_find_char_idx_bounds(v@, c);
        if find_char_idx(v@, c) < v@.len() {
            assert(v@[find_char_idx(v@, c)] == c);
            assert(false);
        }
    }
    None
}

/// The parts of `s` between occurrences of `c`, in order; empty parts kept,
/// so `n` separators give `n + 1` parts.
pub open spec fn split_char(s: Seq<char>, c: char) -> Seq<Seq<char>>
    decreases s.len(),
{
    let k = find_char_idx(s, c);
    if 0 <= k < s.len() {
        seq![s.subrange(0, k)] + split_char(s.subrange(k + 1, s.len() as int), c)
    } else {
        seq![s]
    }
}

/// The parts of the input between occurrences of `c`, in order.
#[verifier::loop_isolation(false)]
pub fn chars_split(v: &Vec<char>, c: char) -> (r: Vec<Vec<char>>)
    ensures
        r@.map_values(|p: Vec<char>| p@) == split_char(v@, c),
{
    let n = v.len();
    let mut parts: Vec<Vec<char>> = Vec::new();
    proof {
        assert(parts@.map_values(|p: Vec<char>| p@) =~= Seq::<Seq<char>>::empty());
        assert(v@.subrange(0, n as int) =~= v@);
    }
    let mut i: usize = 0;
    let mut finished = false;
    while !finished
        invariant
            i <= n,
            !finished ==> parts@.map_values(|p: Vec<char>| p@) + split_char(
                v@.subrange(i as int, n as int),
                c,
            ) =~= split_char(v@, c),
            finished ==> parts@.map_values(|p: Vec<char>| p@) =~= split_char(v@, c),
        decreases n - i, (if finished { 0int } else { 1int }),
    {
        let start = i;
        let mut j = i;
        while j < n && v[j] != c
            invariant
                start <= j <= n,
                forall|t: int| start <= t < j ==> #[trigger] v@[t] != c,
            decreases n - j,
        {
            j += 1;
        }
        let mut part: Vec<char> = Vec::new();
        let mut t = start;
        while t < j
            invariant
                start <= t <= j,
                part@ == v@.subrange(start as int, t as int),
            decreases j - t,
        {
            part.push(v[t]);
            t += 1;
            proof {
                assert(part@ =~= v@.subrange(start as int, t as int));
            }
        }
        let ghost rest = v@.subrange(start as int, n as int);
        proof {
            lemma_find_char_idx_bounds(rest, c);
            assert forall|u: int| 0 <= u < j - start implies #[trigger] rest[u] != c by {
                assert(rest[u] == v@[start + u]);
            }
            if find_char_idx(rest, c) < j - start {
                assert(rest[find_char_idx(rest, c)] == c);
                assert(false);
            }
            if j < n {
                assert(rest[j - start] == v@[j as int]);
                if find_char_idx(rest, c) > j - start {
                    assert(rest[j - start] != c);
                    assert(false);
                }
            }
            assert(rest.subrange(0, j - start) =~= v@.subrange(start as int, j as int));
        }
        let ghost before = parts@.map_values(|p: Vec<char>| p@);
        parts.push(part);
        proof {
            assert(parts@.map_values(|p: Vec<char>| p@) =~= before.push(part@));
        }
        if j < n {
            proof {
                assert(find_char_idx(rest, c) == j - start);
                assert(rest.subrange(j - start + 1, rest.len() as int) =~= v@.subrange(
                    j + 1,
                    n as int,
                ));
                assert(split_char(rest, c) == seq![v@.subrange(start as int, j as int)]
                    + split_char(v@.subrange(j + 1, n as int), c));
                assert(before.push(part@) + split_char(v@.subrange(j + 1, n as int), c)
                    =~= before + split_char(rest, c));
            }
            i = j + 1;
        } else {
            proof {
                assert(find_char_idx(rest, c) == rest.len());
                assert(split_char(rest, c) == seq![rest]);
                assert(rest =~= part@);
                assert(before.push(part@) =~= before + split_char(rest, c));
            }
            finished = true;
        }
    }
    parts
}

/// `s` without any trailing run of `c`.
pub open spec fn trim_end_char(s: Seq<char>, c: char) -> Seq<char>
    decreases s.len(),
{
    if s.len() > 0 && s.last() == c {
        trim_end_char(s.drop_last(), c)
    } else {
        s
    }
}

/// The input without any trailing run of `c`.
#[verifier::loop_isolation(false)]
pub fn chars_trim_end_char(v: &Vec<char>, c: char) -> (r: Vec<char>)
    ensures
        r@ == trim_end_char(v@, c),
{
    let mut hi: usize = v.len();
    proof {
        assert(v@.subrange(0, hi as int) =~= v@);
    }
    while hi > 0 && v[hi - 1] == c
        invariant
            hi <= v@.len(),
            trim_end_char(v@, c) == trim_end_char(v@.subrange(0, hi as int), c),
        decreases hi,
    {
        proof {
            let cur = v@.subrange(0, hi as int);
            assert(cur.last() == v@[hi - 1]);
            assert(cur.drop_last() =~= v@.subrange(0, hi - 1));
        }
        hi -= 1;
    }
    let mut r: Vec<char> = Vec::new();
    let mut i: usize = 0;
    while i < hi
        invariant
            i <= hi <= v@.len(),
            r@ == v@.subrange(0, i as int),
        decreases hi - i,
    {
        r.push(v[i]);
        i += 1;
        proof {
            assert(r@ =~= v@.subrange(0, i as int));
        }
    }
    proof {
        let cur = v@.subrange(0, hi as int);
        if hi > 0 {
            assert(cur.last() == v@[hi - 1]);
            assert(trim_end_char(cur, c) == cur);
        } else {
            assert(cur =~= Seq::<char>::empty());
        }
        assert(r@ =~= cur);
    }
    r
}

/// `s` without any leading run of `c`.
pub open spec fn trim_start_char(s: Seq<char>, c: char) -> Seq<char>
    decreases s.len(),
{
    if s.len() > 0 && s[0] == c {
        trim_start_char(s.subrange(1, s.len() as int), c)
    } else {
        s
    }
}

/// The input without any leading run of `c`.
#[verifier::loop_isolation(false)]
pub fn chars_trim_start_char(v: &Vec<char>, c: char) -> (r: Vec<char>)
    ensures
        r@ == trim_start_char(v@, c),
{
    let n = v.len();
    let mut lo: usize = 0;
    proof {
        assert(v@.subrange(0, n as int) =~= v@);
    }
    while lo < n && v[lo] == c
        invariant
            lo <= n,
            n == v@.len(),
            trim_start_char(v@, c) == trim_start_char(v@.subrange(lo as int, n as int), c),
        decreases n - lo,
    {
        proof {
            let cur = v@.subrange(lo as int, n as int);
            assert(cur[0] == v@[lo as int]);
            assert(cur.subrange(1, cur.len() as int) =~= v@.subrange(lo + 1, n as int));
        }
        lo += 1;
    }
    let r = chars_subrange(v, lo, n);
    proof {
        let cur = v@.subrange(lo as int, n as int);
        if lo < n {
            assert(cur[0] == v@[lo as int]);
        }
        assert(trim_start_char(cur, c) == cur);
    }
    r
}

/// `s` without any trailing repetitions of `suffix`.
pub open spec fn trim_end_sub(s: Seq<char>, suffix: Seq<char>) -> Seq<char>
    decreases s.len(),
{
    if suffix.len() > 0 && ends_with(s, suffix) {
        trim_end_sub(s.subrange(0, s.len() - suffix.len()), suffix)
    } else {
        s
    }
}

/// The input without any trailing repetitions of `suffix`.
#[verifier::loop_isolation(false)]
pub fn chars_trim_end_sub(v: &Vec<char>, suffix: &Vec<char>) -> (r: Vec<char>)
    ensures
        r@ == trim_end_sub(v@, suffix@),
{
    if suffix.len() == 0 {
        let mut r: Vec<char> = Vec::new();
        let mut i: usize = 0;
        while i < v.len()
            invariant
                i <= v@.len(),
                r@ == v@.subrange(0, i as int),
            decreases v@.len() - i,
        {
            r.push(v[i]);
            i += 1;
            proof {
                assert(r@ =~= v@.subrange(0, i as int));
            }
        }
        proof {
            assert(r@ =~= v@);
        }
        return r;
    }
    let mut hi: usize = v.len();
    proof {
        assert(v@.subrange(0, hi as int) =~= v@);
    }
    let mut done = false;
    while !done
        invariant
            hi <= v@.len(),
            suffix@.len() > 0,
            trim_end_sub(v@, suffix@) == trim_end_sub(v@.subrange(0, hi as int), suffix@),
            done ==> !ends_with(v@.subrange(0, hi as int), suffix@),
        decreases hi, (if done { 0int } else { 1int }),
    {
        let ghost cur = v@.subrange(0, hi as int);
        if suffix.len() > hi {
            proof {
                assert(!ends_with(cur, suffix@));
            }
            done = true;
            continue;
        }
        let off = hi - suffix.len();
        let mut k: usize = 0;
        let mut matches_here = true;
        while k < suffix.len()
            invariant
                suffix@.len() <= hi,
                off == hi - suffix@.len(),
                k <= suffix@.len(),
                matches_here == (forall|t: int| 0 <= t < k ==> v@[off + t] == suffix@[t]),
            decreases suffix@.len() - k,
        {
            if v[off + k] != suffix[k] {
                matches_here = false;
                proof {
                    assert(v@[off + k as int] != suffix@[k as int]);
                }
                k = suffix.len();
            } else {
                k += 1;
            }
        }
        if matches_here {
            proof {
                assert forall|t: int| 0 <= t < suffix@.len() implies #[trigger] cur.subrange(
                    cur.len() - suffix@.len(),
                    cur.len() as int,
                )[t] == suffix@[t] by {
                    assert(cur.subrange(cur.len() - suffix@.len(), cur.len() as int)[t]
                        == cur[off + t]);
                    assert(cur[off + t] == v@[off + t]);
                }
                assert(cur.subrange(cur.len() - suffix@.len(), cur.len() as int) =~= suffix@);
                assert(ends_with(cur, suffix@));
                assert(cur.subrange(0, cur.len() - suffix@.len()) =~= v@.subrange(
                    0,
                    off as int,
                ));
            }
            hi = off;
        } else {
            proof {
                if ends_with(cur, suffix@) {
                    let tail = cur.subrange(cur.len() - suffix@.len(), cur.len() as int);
                    assert forall|t: int| 0 <= t < suffix@.len() implies #[trigger] tail[t]
                        == v@[off + t] by {
                        assert(tail[t] == cur[off + t]);
                    }
                    let ghost bad = choose|t: int|
                        0 <= t < suffix@.len() && v@[off + t] != suffix@[t];
                    assert(tail[bad] == suffix@[bad]);
                    assert(false);
                }
            }
            done = true;
        }
    }
    let mut r: Vec<char> = Vec::new();
    let mut i: usize = 0;
    while i < hi
        invariant
            i <= hi <= v@.len(),
            r@ == v@.subrange(0, i as int),
        decreases hi - i,
    {
        r.push(v[i]);
        i += 1;
        proof {
            assert(r@ =~= v@.subrange(0, i as int));
        }
    }
    proof {
        let cur = v@.subrange(0, hi as int);
        assert(trim_end_sub(cur, suffix@) == cur);
        assert(r@ =~= cur);
    }
    r
}

/// The index of the first character satisfying `white`, or the length.
pub open spec fn first_white_idx(s: Seq<char>) -> int
    decreases s.len(),
{
    if s.len() == 0 {
        0
    } else if is_white(s[0]) {
        0
    } else {
        1 + first_white_idx(s.drop_first())
    }
}

pub proof fn lemma_first_white_idx_bounds(s: Seq<char>)
    ensures
        0 <= first_white_idx(s) <= s.len(),
        forall|t: int| 0 <= t < first_white_idx(s) ==> !is_white(#[trigger] s[t]),
        first_white_idx(s) < s.len() ==> is_white(s[first_white_idx(s)]),
    decreases s.len(),
{
    if s.len() > 0 && !is_white(s[0]) {
        lemma_first_white_idx_bounds(s.drop_first());
        assert forall|t: int| 0 <= t < first_white_idx(s) implies !is_white(#[trigger] s[t]) by {
            if t >= 1 {
                assert(!is_white(s.drop_first()[t - 1]));
                assert(s.drop_first()[t - 1] == s[t]);
            }
        }
    }
}

/// The maximal whitespace-free words of `s`, in order.
pub open spec fn words_of(s: Seq<char>) -> Seq<Seq<char>>
    decreases s.len(),
{
    if s.len() == 0 {
        seq![]
    } else if is_white(s[0]) {
        words_of(s.drop_first())
    } else {
        let k = first_white_idx(s);
        if 1 <= k <= s.len() {
            seq![s.subrange(0, k)] + words_of(s.subrange(k, s.len() as int))
        } else {
            seq![]
        }
    }
}

/// The words, separated by `sep`.
pub open spec fn join_with(ws: Seq<Seq<char>>, sep: Seq<char>) -> Seq<char>
    decreases ws.len(),
{
    if ws.len() == 0 {
        seq![]
    } else if ws.len() == 1 {
        ws[0]
    } else {
        ws[0] + sep + join_with(ws.drop_first(), sep)
    }
}

pub proof fn lemma_join_with_push(ws: Seq<Seq<char>>, sep: Seq<char>, w: Seq<char>)
    ensures
        join_with(ws.push(w), sep) == if ws.len() == 0 {
            w
        } else {
            join_with(ws, sep) + sep + w
        },
    decreases ws.len(),
{
    if ws.len() == 0 {
        assert(ws.push(w)[0] =~= w);
        assert(join_with(ws.push(w), sep) =~= w);
    } else if ws.len() == 1 {
        assert(ws.push(w).drop_first() =~= seq![w]);
        assert(join_with(seq![w], sep) == w);
        assert(ws.push(w)[0] == ws[0]);
        assert(join_with(ws, sep) == ws[0]);
    } else {
        lemma_join_with_push(ws.drop_first(), sep, w);
        assert(ws.push(w).drop_first() =~= ws.drop_first().push(w));
        assert((ws[0] + sep + (join_with(ws.drop_first(), sep) + sep + w)) =~= (ws[0] + sep
            + join_with(ws.drop_first(), sep)) + sep + w);
    }
}

/// The maximal whitespace-free words of the input, in order.
#[verifier::loop_isolation(false)]
pub fn split_words(v: &Vec<char>) -> (r: Vec<Vec<char>>)
    ensures
        r@.map_values(|w: Vec<char>| w@) == words_of(v@),
{
    let n = v.len();
    let mut words: Vec<Vec<char>> = Vec::new();
    proof {
        assert(words@.map_values(|w: Vec<char>| w@) =~= Seq::<Seq<char>>::empty());
        assert(v@.subrange(0, n as int) =~= v@);
    }
    let mut i: usize = 0;
    while i < n
        invariant
            i <= n,
            words@.map_values(|w: Vec<char>| w@) + words_of(v@.subrange(i as int, n as int))
                =~= words_of(v@),
        decreases n - i,
    {
        if white_char(v[i]) {
            proof {
                let rest = v@.subrange(i as int, n as int);
                assert(rest.drop_first() =~= v@.subrange(i + 1, n as int));
            }
            i += 1;
        } else {
            let start = i;
            let mut j = i;
            while j < n && !white_char(v[j])
                invariant
                    start <= j <= n,
                    forall|t: int| start <= t < j ==> !is_white(#[trigger] v@[t]),
                decreases n - j,
            {
                j += 1;
            }
            let mut w: Vec<char> = Vec::new();
            let mut t = start;
            while t < j
                invariant
                    start <= t <= j,
                    w@ == v@.subrange(start as int, t as int),
                decreases j - t,
            {
                w.push(v[t]);
                t += 1;
                proof {
                    assert(w@ =~= v@.subrange(start as int, t as int));
                }
            }
            proof {
                let rest = v@.subrange(start as int, n as int);
                lemma_first_white_idx_bounds(rest);
                assert forall|u: int| 0 <= u < j - start implies !is_white(#[trigger] rest[u]) by {
                    assert(rest[u] == v@[start + u]);
                }
                if first_white_idx(rest) < j - start {
                    assert(is_white(rest[first_white_idx(rest)]));
                    assert(false);
                }
                if first_white_idx(rest) > j - start {
                    assert(j < n);
                    assert(is_white(v@[j as int]));
                    assert(rest[j - start] == v@[j as int]);
                    assert(!is_white(rest[j - start]));
                    assert(false);
                }
                assert(first_white_idx(rest) == j - start);
                assert(rest.subrange(0, j - start) =~= v@.subrange(start as int, j as int));
                assert(rest.subrange(j - start, rest.len() as int) =~= v@.subrange(
                    j as int,
                    n as int,
                ));
                assert(words_of(rest) == seq![v@.subrange(start as int, j as int)] + words_of(
                    v@.subrange(j as int, n as int),
                ));
            }
            let ghost before = words@.map_values(|x: Vec<char>| x@);
            words.push(w);
            proof {
                assert(words@.map_values(|x: Vec<char>| x@) =~= before.push(w@));
                assert(before.push(w@) + words_of(v@.subrange(j as int, n as int)) =~= before + (
                seq![w@] + words_of(v@.subrange(j as int, n as int))));
            }
            i = j;
        }
    }
    proof {
        assert(words_of(v@.subrange(n as int, n as int)) =~= Seq::<Seq<char>>::empty());
        assert(words@.map_values(|w: Vec<char>| w@) =~= words@.map_values(|w: Vec<char>| w@)
            + words_of(v@.subrange(n as int, n as int)));
    }
    words
}

/// The words joined by `sep`.
#[verifier::loop_isolation(false)]
pub fn join_chars(words: &Vec<Vec<char>>, sep: &Vec<char>) -> (r: Vec<char>)
    ensures
        r@ == join_with(words@.map_values(|w: Vec<char>| w@), sep@),
{
    let mut out: Vec<char> = Vec::new();
    let mut i: usize = 0;
    while i < words.len()
        invariant
            i <= words@.len(),
            out@ == join_with(
                words@.subrange(0, i as int).map_values(|w: Vec<char>| w@),
                sep@,
            ),
        decreases words@.len() - i,
    {
        let ghost prefix = words@.subrange(0, i as int).map_values(|w: Vec<char>| w@);
        if i > 0 {
            let mut t: usize = 0;
            while t < sep.len()
                invariant
                    t <= sep@.len(),
                    out@ == prefix_join_partial(prefix, sep@, t as int),
                decreases sep@.len() - t,
            {
                out.push(sep[t]);
                t += 1;
                proof {
                    assert(out@ =~= prefix_join_partial(prefix, sep@, t as int));
                }
            }
        }
        let w = &words[i];
        let mut t: usize = 0;
        while t < w.len()
            invariant
                t <= w@.len(),
                out@ == if i == 0 {
                    w@.subrange(0, t as int)
                } else {
                    join_with(prefix, sep@) + sep@ + w@.subrange(0, t as int)
                },
        decreases w@.len() - t,
        {
            out.push(w[t]);
            t += 1;
            proof {
                if i == 0 {
                    assert(out@ =~= w@.subrange(0, t as int));
                } else {
                    assert(out@ =~= join_with(prefix, sep@) + sep@ + w@.subrange(0, t as int));
                }
            }
        }
        proof {
            let next = words@.subrange(0, i + 1).map_values(|x: Vec<char>| x@);
            assert(next =~= prefix.push(w@));
            lemma_join_with_push(prefix, sep@, w@);
            if i == 0 {
                assert(out@ =~= w@);
                assert(prefix.len() == 0);
            } else {
                assert(w@.subrange(0, w@.len() as int) =~= w@);
            }
            assert(out@ =~= join_with(next, sep@));
        }
        i += 1;
    }
    proof {
        assert(words@.subrange(0, words@.len() as int) =~= words@);
    }
    out
}

/// `join_with(ws, sep) + sep` built up to `t` characters of the separator.
pub open spec fn prefix_join_partial(ws: Seq<Seq<char>>, sep: Seq<char>, t: int) -> Seq<char> {
    join_with(ws, sep) + sep.subrange(0, t)
}

/// A copy of the characters from `a` (inclusive) to `b` (exclusive).
pub fn chars_subrange(v: &Vec<char>, a: usize, b: usize) -> (r: Vec<char>)
    requires
        a <= b <= v@.len(),
    ensures
        r@ == v@.subrange(a as int, b as int),
{
    let mut r: Vec<char> = Vec::new();
    let mut i: usize = a;
    while i < b
        invariant
            a <= i <= b <= v@.len(),
            r@ == v@.subrange(a as int, i as int),
        decreases b - i,
    {
        r.push(v[i]);
        i += 1;
        proof {
            assert(r@ =~= v@.subrange(a as int, i as int));
        }
    }
    r
}

/// Concatenation of two character vectors.
pub fn chars_concat(a: &Vec<char>, b: &Vec<char>) -> (r: Vec<char>)
    ensures
        r@ == a@ + b@,
{
    let mut r: Vec<char> = Vec::new();
    let mut i: usize = 0;
    while i < a.len()
        invariant
            i <= a@.len(),
            r@ == a@.subrange(0, i as int),
        decreases a@.len() - i,
    {
        r.push(a[i]);
        i += 1;
        proof {
            assert(r@ =~= a@.subrange(0, i as int));
        }
    }
    let mut j: usize = 0;
    while j < b.len()
        invariant
            j <= b@.len(),
            r@ == a@.subrange(0, a@.len() as int) + b@.subrange(0, j as int),
        decreases b@.len() - j,
    {
        r.push(b[j]);
        j += 1;
        proof {
            assert(r@ =~= a@.subrange(0, a@.len() as int) + b@.subrange(0, j as int));
        }
    }
    proof {
        assert(a@.subrange(0, a@.len() as int) =~= a@);
        assert(b@.subrange(0, b@.len() as int) =~= b@);
        assert(r@ =~= a@ + b@);
    }
    r
}

} // verus!
