//! The HTML-to-text transform the export commands consume: service-specific
//! preprocessing, the conversion itself (a black-box text transform), and
//! table repair on the converted text.
use vstd::prelude::*;
use crate::strutil::{
    all_digits, chars_concat, chars_find, chars_split, chars_string, chars_subrange, chars_trim,
    contains_sub, find_char_idx, join_chars, join_with, split_char, str_chars, trim_end_sub,
    trimmed,
};

verus! {

/// Knobs for the converted text.
#[derive(Debug, Clone, Copy)]
pub struct MarkdownOptions {
    pub keep_empty_list_items: bool,
}

impl Default for MarkdownOptions {
    /// Empty list items are dropped unless asked for.
    fn default() -> (r: Self)
        ensures
            !r.keep_empty_list_items,
    {
        MarkdownOptions { keep_empty_list_items: false }
    }
}

/// The value of a hex digit, and 16 for anything else.
pub open spec fn hex_digit_val(c: char) -> nat {
    if '0' <= c && c <= '9' {
        (c as nat - '0' as nat) as nat
    } else if 'a' <= c && c <= 'f' {
        (c as nat - 'a' as nat + 10) as nat
    } else if 'A' <= c && c <= 'F' {
        (c as nat - 'A' as nat + 10) as nat
    } else {
        16
    }
}

pub open spec fn spec_hex4_val(s: Seq<char>) -> nat
    recommends
        s.len() == 4,
{
    hex_digit_val(s[0]) * 4096 + hex_digit_val(s[1]) * 256 + hex_digit_val(s[2]) * 16
        + hex_digit_val(s[3])
}

/// What parsing four hex digits yields: their value, or nothing where any
/// character is not a hex digit (or the length is not four).
pub open spec fn spec_parse_hex4(s: Seq<char>) -> Option<u16> {
    if s.len() == 4 && hex_digit_val(s[0]) < 16 && hex_digit_val(s[1]) < 16 && hex_digit_val(
        s[2],
    ) < 16 && hex_digit_val(s[3]) < 16 {
        Some(spec_hex4_val(s) as u16)
    } else {
        None
    }
}

fn hex_digit(c: char) -> (r: u8)
    ensures
        r as nat == hex_digit_val(c),
{
    if '0' <= c && c <= '9' {
        ((c as u32) - ('0' as u32)) as u8
    } else if 'a' <= c && c <= 'f' {
        ((c as u32) - ('a' as u32) + 10) as u8
    } else if 'A' <= c && c <= 'F' {
        ((c as u32) - ('A' as u32) + 10) as u8
    } else {
        16
    }
}

/// The value of exactly four hex digits.
pub fn parse_hex4(s: &Vec<char>) -> (r: Option<u16>)
    ensures
        r == spec_parse_hex4(s@),
{
    if s.len() != 4 {
        return None;
    }
    let d0 = hex_digit(s[0]);
    let d1 = hex_digit(s[1]);
    let d2 = hex_digit(s[2]);
    let d3 = hex_digit(s[3]);
    if d0 >= 16 || d1 >= 16 || d2 >= 16 || d3 >= 16 {
        return None;
    }
    Some((d0 as u16) * 4096 + (d1 as u16) * 256 + (d2 as u16) * 16 + (d3 as u16))
}

/// Whether `v` is a Unicode scalar value (encodable as a `char`).
pub open spec fn is_scalar(v: nat) -> bool {
    v < 0xD800 || (0xE000 <= v && v <= 0x10FFFF)
}

/// The text with `\uXXXX` escapes decoded, surrogate pairs included; an
/// escape that decodes to no scalar value is kept as it stands.
pub open spec fn spec_decode_unicode(s: Seq<char>) -> Seq<char>
    decreases s.len(),
{
    if s.len() == 0 {
        s
    } else if s[0] == '\\' && s.len() >= 6 && s[1] == 'u' && spec_parse_hex4(
        s.subrange(2, 6),
    ) is Some {
        let code = spec_parse_hex4(s.subrange(2, 6))->Some_0 as nat;
        if 0xD800 <= code && code <= 0xDBFF && s.len() >= 12 && s[6] == '\\' && s[7] == 'u'
            && spec_parse_hex4(s.subrange(8, 12)) is Some && 0xDC00 <= (spec_parse_hex4(
            s.subrange(8, 12),
        )->Some_0 as nat) && (spec_parse_hex4(s.subrange(8, 12))->Some_0 as nat) <= 0xDFFF {
            let low = spec_parse_hex4(s.subrange(8, 12))->Some_0 as nat;
            let scalar = 0x10000 + (code - 0xD800) * 0x400 + (low - 0xDC00);
            seq![scalar as char] + spec_decode_unicode(s.subrange(12, s.len() as int))
        } else if is_scalar(code) {
            seq![code as char] + spec_decode_unicode(s.subrange(6, s.len() as int))
        } else {
            seq![s[0]] + spec_decode_unicode(s.subrange(1, s.len() as int))
        }
    } else {
        seq![s[0]] + spec_decode_unicode(s.subrange(1, s.len() as int))
    }
}

/// `\uXXXX` escape sequences decoded, surrogate pairs included.
#[verifier::loop_isolation(false)]
#[verifier::rlimit(100)]
pub fn decode_unicode_escapes(v: &Vec<char>) -> (r: Vec<char>)
    ensures
        r@ == spec_decode_unicode(v@),
{
    let n = v.len();
    let mut out: Vec<char> = Vec::new();
    let mut i: usize = 0;
    proof {
        assert(v@.subrange(0, n as int) =~= v@);
    }
    while i < n
        invariant
            i <= n,
            spec_decode_unicode(v@) == out@ + spec_decode_unicode(
                v@.subrange(i as int, n as int),
            ),
        decreases n - i,
    {
        let ghost rest = v@.subrange(i as int, n as int);
        if v[i] == '\\' && n - i >= 6 && v[i + 1] == 'u' {
            let hex = chars_subrange(v, i + 2, i + 6);
            proof {
                assert(hex@ =~= rest.subrange(2, 6));
            }
            match parse_hex4(&hex) {
                Some(code) => {
                    if 0xD800 <= code && code <= 0xDBFF && n - i >= 12 && v[i + 6] == '\\' && v[i
                        + 7] == 'u' {
                        let hex2 = chars_subrange(v, i + 8, i + 12);
                        proof {
                            assert(hex2@ =~= rest.subrange(8, 12));
                        }
                        match parse_hex4(&hex2) {
                            Some(low) => {
                                if 0xDC00 <= low && low <= 0xDFFF {
                                    let scalar: u32 = 0x10000u32 + (code as u32 - 0xD800) * 0x400
                                        + (low as u32 - 0xDC00);
                                    match char::from_u32(scalar) {
                                        Some(ch) => {
                                            out.push(ch);
                                            proof {
                                                assert(rest.subrange(12, rest.len() as int)
                                                    =~= v@.subrange(i + 12, n as int));
                                                assert(out@ + spec_decode_unicode(
                                                    v@.subrange(i + 12, n as int),
                                                ) =~= spec_decode_unicode(v@));
                                            }
                                            i += 12;
                                            continue ;
                                        },
                                        None => {
                                            proof {
                                                assert(false);
                                            }
                                        },
                                    }
                                }
                            },
                            None => {},
                        }
                    }
                    let scalar_ok = code < 0xD800 || code >= 0xE000;
                    if scalar_ok {
                        match char::from_u32(code as u32) {
                            Some(ch) => {
                                out.push(ch);
                                proof {
                                    assert(rest.subrange(6, rest.len() as int) =~= v@.subrange(
                                        i + 6,
                                        n as int,
                                    ));
                                    assert(out@ + spec_decode_unicode(v@.subrange(i + 6, n as int))
                                        =~= spec_decode_unicode(v@));
                                }
                                i += 6;
                                continue ;
                            },
                            None => {
                                proof {
                                    assert(false);
                                }
                            },
                        }
                    }
                },
                None => {},
            }
        }
        out.push(v[i]);
        proof {
            assert(rest[0] == v@[i as int]);
            assert(rest.subrange(1, rest.len() as int) =~= v@.subrange(i + 1, n as int));
            assert(out@ + spec_decode_unicode(v@.subrange(i + 1, n as int))
                =~= spec_decode_unicode(v@));
        }
        i += 1;
    }
    proof {
        assert(spec_decode_unicode(v@.subrange(n as int, n as int)) =~= Seq::<char>::empty());
        assert(out@ =~= spec_decode_unicode(v@));
    }
    out
}

/// `\uXXXX` escape sequences decoded, surrogate pairs included.
pub fn decode_unicode_escapes_str(input: &str) -> (r: String)
    ensures
        r@ == spec_decode_unicode(input@),
{
    let v = str_chars(input);
    let out = decode_unicode_escapes(&v);
    chars_string(&out)
}

/// A line that belongs to a table: its trimmed text starts with `|`.
pub open spec fn is_table_line(line: Seq<char>) -> bool {
    trimmed(line).len() > 0 && trimmed(line)[0] == '|'
}

fn table_line(line: &Vec<char>) -> (r: bool)
    ensures
        r == is_table_line(line@),
{
    let t = chars_trim(line);
    t.len() > 0 && t[0] == '|'
}

/// A lone list marker: a `-`, `*` or `+`, or a numbered item `N.`, with
/// nothing but whitespace around it.
pub open spec fn is_empty_list_item(line: Seq<char>) -> bool {
    let t = trimmed(line);
    t == seq!['-'] || t == seq!['*'] || t == seq!['+'] || (t.len() >= 2 && all_digits(
        t.take(t.len() - 1),
    ) && t.last() == '.')
}

fn empty_list_item(line: &Vec<char>) -> (r: bool)
    ensures
        r == is_empty_list_item(line@),
{
    let t = chars_trim(line);
    if t.len() == 1 && (t[0] == '-' || t[0] == '*' || t[0] == '+') {
        proof {
            assert(t@ =~= seq![t@[0]]);
        }
        return true;
    }
    if t.len() >= 2 && t[t.len() - 1] == '.' {
        let head = chars_subrange(&t, 0, t.len() - 1);
        if crate::strutil::chars_all_digits(&head) {
            proof {
                assert(head@ =~= t@.take(t@.len() - 1));
            }
            return true;
        }
        proof {
            assert(head@ =~= t@.take(t@.len() - 1));
        }
    }
    proof {
        let tt = trimmed(line@);
        if tt == seq!['-'] || tt == seq!['*'] || tt == seq!['+'] {
            assert(t@.len() == 1);
        }
    }
    false
}

/// A table separator cell: an optional colon, at least three dashes, an
/// optional colon.
pub open spec fn is_sep_cell(c: Seq<char>) -> bool {
    let lo: int = if c.len() > 0 && c[0] == ':' {
        1
    } else {
        0
    };
    let hi: int = if c.len() > lo && c[c.len() - 1] == ':' {
        c.len() - 1
    } else {
        c.len() as int
    };
    hi - lo >= 3 && (forall|i: int| lo <= i < hi ==> c[i] == '-')
}

#[verifier::loop_isolation(false)]
fn sep_cell(c: &Vec<char>) -> (r: bool)
    ensures
        r == is_sep_cell(c@),
{
    let lo: usize = if c.len() > 0 && c[0] == ':' {
        1
    } else {
        0
    };
    let hi: usize = if c.len() > lo && c[c.len() - 1] == ':' {
        c.len() - 1
    } else {
        c.len()
    };
    if hi - lo < 3 {
        return false;
    }
    let mut i = lo;
    while i < hi
        invariant
            lo <= i <= hi <= c@.len(),
            forall|j: int| lo <= j < i ==> c@[j] == '-',
        decreases hi - i,
    {
        if c[i] != '-' {
            return false;
        }
        i += 1;
    }
    true
}

/// The trimmed cells of a table line, with the outer pipes dropped.
pub open spec fn spec_table_cells(line: Seq<char>) -> Seq<Seq<char>> {
    let t = crate::strutil::trim_start_char(
        crate::strutil::trim_end_char(trimmed(line), '|'),
        '|',
    );
    split_char(t, '|').map_values(|c: Seq<char>| trimmed(c))
}

/// The trimmed cells of a table line.
#[verifier::loop_isolation(false)]
pub fn table_cells(line: &Vec<char>) -> (r: Vec<Vec<char>>)
    ensures
        r@.map_values(|c: Vec<char>| c@) == spec_table_cells(line@),
{
    let t0 = chars_trim(line);
    let t1 = crate::strutil::chars_trim_end_char(&t0, '|');
    let t = crate::strutil::chars_trim_start_char(&t1, '|');
    let raw = chars_split(&t, '|');
    let ghost raw_views = raw@.map_values(|c: Vec<char>| c@);
    let mut out: Vec<Vec<char>> = Vec::new();
    let mut i: usize = 0;
    while i < raw.len()
        invariant
            i <= raw@.len(),
            raw_views == raw@.map_values(|c: Vec<char>| c@),
            out@.map_values(|c: Vec<char>| c@) == raw_views.take(i as int).map_values(
                |c: Seq<char>| trimmed(c),
            ),
        decreases raw@.len() - i,
    {
        let cell = chars_trim(&raw[i]);
        let ghost before = out@.map_values(|c: Vec<char>| c@);
        out.push(cell);
        proof {
            assert(out@.map_values(|c: Vec<char>| c@) =~= before.push(cell@));
            assert(raw_views.take(i + 1) =~= raw_views.take(i as int).push(raw_views[i as int]));
            assert(raw_views.take(i + 1).map_values(|c: Seq<char>| trimmed(c)) =~= raw_views.take(
                i as int,
            ).map_values(|c: Seq<char>| trimmed(c)).push(trimmed(raw_views[i as int])));
        }
        i += 1;
    }
    proof {
        assert(raw_views.take(raw_views.len() as int) =~= raw_views);
    }
    out
}

/// A row whose cells are all empty or separator cells.
pub open spec fn is_separator_like_row(line: Seq<char>) -> bool {
    let cells = spec_table_cells(line);
    cells.len() > 0 && (forall|i: int|
        0 <= i < cells.len() ==> (#[trigger] cells[i]).len() == 0 || is_sep_cell(cells[i]))
}

/// Whether every cell of the row is empty or a separator cell.
#[verifier::loop_isolation(false)]
pub fn separator_like_row(line: &Vec<char>) -> (r: bool)
    ensures
        r == is_separator_like_row(line@),
{
    let cells = table_cells(line);
    let ghost views = cells@.map_values(|c: Vec<char>| c@);
    if cells.len() == 0 {
        return false;
    }
    let mut i: usize = 0;
    while i < cells.len()
        invariant
            i <= cells@.len(),
            views == cells@.map_values(|c: Vec<char>| c@),
            views == spec_table_cells(line@),
            forall|j: int|
                0 <= j < i ==> (#[trigger] views[j]).len() == 0 || is_sep_cell(views[j]),
        decreases cells@.len() - i,
    {
        if cells[i].len() > 0 && !sep_cell(&cells[i]) {
            proof {
                assert(views[i as int] == cells@[i as int]@);
                assert(!(spec_table_cells(line@)[i as int].len() == 0) && !is_sep_cell(
                    spec_table_cells(line@)[i as int],
                ));
            }
            return false;
        }
        i += 1;
    }
    true
}

/// A full separator line: between optional outer pipes, two or more
/// pipe-separated separator cells.
pub open spec fn spec_sep_parts(line: Seq<char>) -> Seq<Seq<char>> {
    let t = trimmed(line);
    let lo: int = if t.len() > 0 && t[0] == '|' {
        1
    } else {
        0
    };
    let hi: int = if t.len() > lo && t[t.len() - 1] == '|' {
        t.len() - 1
    } else {
        t.len() as int
    };
    split_char(t.subrange(lo, hi), '|')
}

pub open spec fn is_table_sep_line(line: Seq<char>) -> bool {
    spec_sep_parts(line).len() >= 2 && (forall|i: int|
        0 <= i < spec_sep_parts(line).len() ==> is_sep_cell(
            trimmed(#[trigger] spec_sep_parts(line)[i]),
        ))
}

/// Whether the line is nothing but a table separator row.
#[verifier::loop_isolation(false)]
pub fn table_sep_line(line: &Vec<char>) -> (r: bool)
    ensures
        r == is_table_sep_line(line@),
{
    let t = chars_trim(line);
    let lo: usize = if t.len() > 0 && t[0] == '|' {
        1
    } else {
        0
    };
    let hi: usize = if t.len() > lo && t[t.len() - 1] == '|' {
        t.len() - 1
    } else {
        t.len()
    };
    let w = chars_subrange(&t, lo, hi);
    let parts = chars_split(&w, '|');
    let ghost views = parts@.map_values(|c: Vec<char>| c@);
    proof {
        assert(views == spec_sep_parts(line@));
    }
    if parts.len() < 2 {
        return false;
    }
    let mut i: usize = 0;
    while i < parts.len()
        invariant
            i <= parts@.len(),
            views == parts@.map_values(|c: Vec<char>| c@),
            views == split_char(w@, '|'),
            views == spec_sep_parts(line@),
            forall|j: int| 0 <= j < i ==> is_sep_cell(trimmed(#[trigger] views[j])),
        decreases parts@.len() - i,
    {
        let cell = chars_trim(&parts[i]);
        if !sep_cell(&cell) {
            proof {
                assert(views[i as int] == parts@[i as int]@);
                assert(!is_sep_cell(trimmed(spec_sep_parts(line@)[i as int])));
            }
            return false;
        }
        i += 1;
    }
    true
}

/// A cell that is exactly one image: `![alt](target)`.
pub open spec fn is_image_only_cell(cell: Seq<char>) -> bool {
    let t = trimmed(cell);
    t.len() >= 5 && t[0] == '!' && t[1] == '[' && {
        let j = 2 + find_char_idx(t.subrange(2, t.len() as int), ']');
        j + 1 < t.len() && t[j + 1] == '(' && {
            let k = j + 2 + find_char_idx(t.subrange(j + 2, t.len() as int), ')');
            k == t.len() - 1
        }
    }
}

/// Whether the cell is exactly one image.
#[verifier::loop_isolation(false)]
pub fn image_only_cell(cell: &Vec<char>) -> (r: bool)
    ensures
        r == is_image_only_cell(cell@),
{
    let t = chars_trim(cell);
    if t.len() < 5 || t[0] != '!' || t[1] != '[' {
        return false;
    }
    let rest1 = chars_subrange(&t, 2, t.len());
    let j = match chars_find(&rest1, ']') {
        Some(p) => 2 + p,
        None => {
            proof {
                let tt = t@;
                assert(2 + find_char_idx(tt.subrange(2, tt.len() as int), ']') >= tt.len()) by {
                    crate::strutil::lemma_find_char_idx_bounds(
                        tt.subrange(2, tt.len() as int),
                        ']',
                    );
                }
            }
            return false;
        },
    };
    if j + 1 >= t.len() || t[j + 1] != '(' {
        return false;
    }
    let rest2 = chars_subrange(&t, j + 2, t.len());
    let k = match chars_find(&rest2, ')') {
        Some(p) => j + 2 + p,
        None => {
            proof {
                let tt = t@;
                crate::strutil::lemma_find_char_idx_bounds(
                    tt.subrange(j + 2, tt.len() as int),
                    ')',
                );
            }
            return false;
        },
    };
    k == t.len() - 1
}

/// The text with every `"` replaced by `&quot;`.
pub open spec fn spec_escape_quotes(s: Seq<char>) -> Seq<char>
    decreases s.len(),
{
    if s.len() == 0 {
        s
    } else if s[0] == '"' {
        "&quot;"@ + spec_escape_quotes(s.subrange(1, s.len() as int))
    } else {
        seq![s[0]] + spec_escape_quotes(s.subrange(1, s.len() as int))
    }
}

#[verifier::loop_isolation(false)]
fn escape_quotes(v: &Vec<char>) -> (r: Vec<char>)
    ensures
        r@ == spec_escape_quotes(v@),
{
    let n = v.len();
    let mut out: Vec<char> = Vec::new();
    proof {
        assert(v@.subrange(0, n as int) =~= v@);
    }
    let mut i: usize = 0;
    while i < n
        invariant
            i <= n,
            spec_escape_quotes(v@) == out@ + spec_escape_quotes(v@.subrange(i as int, n as int)),
        decreases n - i,
    {
        let ghost rest = v@.subrange(i as int, n as int);
        proof {
            assert(rest[0] == v@[i as int]);
            assert(rest.subrange(1, rest.len() as int) =~= v@.subrange(i + 1, n as int));
        }
        if v[i] == '"' {
            let rep = str_chars("&quot;");
            let mut t: usize = 0;
            let ghost before = out@;
            while t < rep.len()
                invariant
                    t <= rep@.len(),
                    rep@ == "&quot;"@,
                    out@ == before + rep@.subrange(0, t as int),
                decreases rep@.len() - t,
            {
                out.push(rep[t]);
                t += 1;
                proof {
                    assert(out@ =~= before + rep@.subrange(0, t as int));
                }
            }
            proof {
                assert(rep@.subrange(0, rep@.len() as int) =~= rep@);
                assert(out@ + spec_escape_quotes(v@.subrange(i + 1, n as int))
                    =~= spec_escape_quotes(v@));
            }
        } else {
            out.push(v[i]);
            proof {
                assert(out@ + spec_escape_quotes(v@.subrange(i + 1, n as int))
                    =~= spec_escape_quotes(v@));
            }
        }
        i += 1;
    }
    proof {
        assert(spec_escape_quotes(v@.subrange(n as int, n as int)) =~= Seq::<char>::empty());
        assert(out@ =~= spec_escape_quotes(v@));
    }
    out
}

/// An image target's file name: what follows the last `/` of the part
/// before any query string.
pub open spec fn spec_extract_filename(v: Seq<char>) -> Seq<char> {
    crate::download::last_path_component(v.take(find_char_idx(v, '?')))
}

pub fn extract_filename(v: &Vec<char>) -> (r: Vec<char>)
    ensures
        r@ == spec_extract_filename(v@),
{
    let cut = match chars_find(v, '?') {
        Some(p) => p,
        None => v.len(),
    };
    let head = chars_subrange(v, 0, cut);
    proof {
        assert(head@ =~= v@.take(find_char_idx(v@, '?')));
    }
    crate::download::last_component(&head)
}

/// What compiling `pattern` and replacing every match in `text` with `rep`
/// yields; nothing where the pattern is invalid.
pub uninterp spec fn regex_replaced_of(
    pattern: Seq<char>,
    text: Seq<char>,
    rep: Seq<char>,
) -> Option<Seq<char>>;

/// Relies on regex's `Regex::new` and `Regex::replace_all`: both are
/// functions of the pattern, text and replacement alone.
#[verifier::external_body]
fn regex_replace_all(pattern: &str, text: &str, rep: &str) -> (r: Option<String>)
    ensures
        match r {
            Some(u) => regex_replaced_of(pattern@, text@, rep@) == Some(u@),
            None => regex_replaced_of(pattern@, text@, rep@) is None,
        },
{
    match regex::Regex::new(pattern) {
        Ok(re) => Some(re.replace_all(text, rep).into_owned()),
        Err(_) => None,
    }
}

/// What the first match's first capture group is, under `pattern`, in
/// `text`; the outer option is pattern validity, the inner is a match.
pub uninterp spec fn regex_capture1_of(pattern: Seq<char>, text: Seq<char>) -> Option<
    Option<Seq<char>>,
>;

/// Relies on regex's `Regex::new`, `Regex::captures` and `Captures::get`:
/// all functions of the pattern and text alone.
#[verifier::external_body]
fn regex_capture1(pattern: &str, text: &str) -> (r: Option<Option<String>>)
    ensures
        match r {
            Some(Some(c)) => regex_capture1_of(pattern@, text@) == Some(Some(c@)),
            Some(None) => regex_capture1_of(pattern@, text@) == Some(None::<Seq<char>>),
            None => regex_capture1_of(pattern@, text@) is None,
        },
{
    match regex::Regex::new(pattern) {
        Ok(re) => Some(
            re.captures(text).and_then(|c| c.get(1)).map(|m| m.as_str().to_string()),
        ),
        Err(_) => None,
    }
}

/// What converting HTML to structured text yields, as a pure text transform
/// of the HTML alone; nothing where the converter reports an error.
pub uninterp spec fn markdown_of(html: Seq<char>) -> Option<Seq<char>>;

/// Relies on htmd's `HtmlToMarkdown::convert`: a pure transform of the
/// HTML text alone, consumed as a black box.
#[verifier::external_body]
fn htmd_convert(html: &str) -> (r: Option<String>)
    ensures
        match r {
            Some(u) => markdown_of(html@) == Some(u@),
            None => markdown_of(html@) is None,
        },
{
    match htmd::HtmlToMarkdown::new().convert(html) {
        Ok(text) => Some(text),
        Err(_) => None,
    }
}

/// The alias-attribute pattern an image tag may carry.
pub open spec fn alias_pattern() -> Seq<char> {
    "data-linked-resource-default-alias=\"([^\"]+)\""@
}

/// The source-attribute pattern an image tag carries.
pub open spec fn src_pattern() -> Seq<char> {
    "(?:data-image-src|src)=\"([^\"]+)\""@
}

/// The alt text chosen for an image tag: its alias attribute, else the file
/// name of its source, else nothing.
pub open spec fn spec_img_alt(attrs: Seq<char>) -> Seq<char> {
    match regex_capture1_of(alias_pattern(), attrs) {
        Some(Some(a)) => a,
        Some(None) => match regex_capture1_of(src_pattern(), attrs) {
            Some(Some(src)) => spec_extract_filename(src),
            _ => Seq::<char>::empty(),
        },
        None => Seq::<char>::empty(),
    }
}

/// The image tag rebuilt with an `alt` attribute where it had none.
pub open spec fn spec_img_alt_rewrite(attrs: Seq<char>, closing: Seq<char>) -> Seq<char> {
    if contains_sub(attrs, " alt="@) {
        "<img"@ + attrs + closing + ">"@
    } else {
        let alt = spec_img_alt(attrs);
        if alt.len() == 0 {
            "<img"@ + attrs + closing + ">"@
        } else {
            "<img"@ + attrs + " alt=\""@ + spec_escape_quotes(alt) + "\""@ + closing + ">"@
        }
    }
}

/// One image tag's attributes, given alt text from its alias or source
/// where it has none of its own.
pub fn img_alt_rewrite(attrs: &str, closing: &str) -> (r: String)
    ensures
        r@ == spec_img_alt_rewrite(attrs@, closing@),
{
    let av = str_chars(attrs);
    let cv = str_chars(closing);
    let head = str_chars("<img");
    let probe = str_chars(" alt=");
    let plain = {
        let m1 = chars_concat(&head, &av);
        let m2 = chars_concat(&m1, &cv);
        let gt = str_chars(">");
        let m3 = chars_concat(&m2, &gt);
        proof {
            assert(m3@ =~= "<img"@ + attrs@ + closing@ + ">"@);
        }
        m3
    };
    if crate::strutil::chars_contains_sub(&av, &probe) {
        return chars_string(&plain);
    }
    let alt: Vec<char> = match regex_capture1(
        "data-linked-resource-default-alias=\"([^\"]+)\"",
        attrs,
    ) {
        Some(Some(a)) => str_chars(a.as_str()),
        Some(None) => {
            match regex_capture1("(?:data-image-src|src)=\"([^\"]+)\"", attrs) {
                Some(Some(src)) => {
                    let sv = str_chars(src.as_str());
                    extract_filename(&sv)
                },
                _ => Vec::new(),
            }
        },
        None => Vec::new(),
    };
    proof {
        assert(alt@ =~= spec_img_alt(attrs@));
    }
    if alt.len() == 0 {
        return chars_string(&plain);
    }
    let escaped = escape_quotes(&alt);
    let m1 = chars_concat(&head, &av);
    let alt_head = str_chars(" alt=\"");
    let m2 = chars_concat(&m1, &alt_head);
    let m3 = chars_concat(&m2, &escaped);
    let quote = str_chars("\"");
    let m4 = chars_concat(&m3, &quote);
    let m5 = chars_concat(&m4, &cv);
    let gt = str_chars(">");
    let m6 = chars_concat(&m5, &gt);
    proof {
        assert(m6@ =~= "<img"@ + attrs@ + " alt=\""@ + spec_escape_quotes(spec_img_alt(attrs@))
            + "\""@ + closing@ + ">"@);
    }
    chars_string(&m6)
}

/// What rewriting every `<img ...>` tag of the HTML through
/// [`img_alt_rewrite`] yields; nothing where the tag pattern is invalid.
pub uninterp spec fn img_alt_added_of(html: Seq<char>) -> Option<Seq<char>>;

/// Relies on regex's `Regex::replace_all` over the fixed `<img ...>` tag
/// pattern; the closure only picks the match's groups and calls the
/// verified [`img_alt_rewrite`] on them.
#[verifier::external_body]
fn img_tags_rewritten(html: &str) -> (r: Option<String>)
    ensures
        match r {
            Some(u) => img_alt_added_of(html@) == Some(u@),
            None => img_alt_added_of(html@) is None,
        },
{
    let img_re = match regex::Regex::new("<img([^>]*?)(/?)>") {
        Ok(re) => re,
        Err(_) => {
            return None;
        },
    };
    let out = img_re.replace_all(
        html,
        |caps: &regex::Captures| {
            let attrs = caps.get(1).map(|m| m.as_str()).unwrap_or("");
            let closing = caps.get(2).map(|m| m.as_str()).unwrap_or("");
            img_alt_rewrite(attrs, closing)
        },
    );
    Some(out.into_owned())
}

pub open spec fn style_pattern() -> Seq<char> {
    "(?s)<style[^>]*>.*?</style>"@
}

pub open spec fn panel_pattern() -> Seq<char> {
    "(?s)<div class=\"panel[^\"]*\"[^>]*>\\s*<div class=\"panelContent[^\"]*\"[^>]*>(.*?)</div>\\s*</div>"@
}

pub open spec fn status_pattern() -> Seq<char> {
    "(?s)<span[^>]*class=\"[^\"]*status-macro[^\"]*\"[^>]*>(.*?)</span>"@
}

pub open spec fn href_pattern() -> Seq<char> {
    "href=\"(/wiki[^\"]*)\""@
}

pub open spec fn src_link_pattern() -> Seq<char> {
    "src=\"(/wiki[^\"]*)\""@
}

/// The link prefix restored in front of site-absolute links: the base URL
/// without its `/wiki` suffix.
pub open spec fn spec_base_root(base_url: Seq<char>) -> Seq<char> {
    trim_end_sub(base_url, "/wiki"@)
}

/// The HTML cleaned for conversion, step by step: styles stripped, panels
/// turned into block quotes, status spans into brackets, site-absolute
/// links given the site prefix back, image tags given alt text, and
/// `\uXXXX` escapes decoded. Nothing where a rewrite step fails.
pub open spec fn spec_preprocess(html: Seq<char>, base_url: Seq<char>) -> Option<Seq<char>> {
    let root = spec_base_root(base_url);
    match regex_replaced_of(style_pattern(), html, Seq::<char>::empty()) {
        None => None,
        Some(c1) => match regex_replaced_of(panel_pattern(), c1, "<blockquote>$1</blockquote>"@) {
            None => None,
            Some(c2) => match regex_replaced_of(status_pattern(), c2, "[$1]"@) {
                None => None,
                Some(c3) => match regex_replaced_of(
                    href_pattern(),
                    c3,
                    "href=\""@ + root + "$1\""@,
                ) {
                    None => None,
                    Some(c4) => match regex_replaced_of(
                        src_link_pattern(),
                        c4,
                        "src=\""@ + root + "$1\""@,
                    ) {
                        None => None,
                        Some(c5) => match img_alt_added_of(c5) {
                            None => None,
                            Some(c6) => Some(spec_decode_unicode(c6)),
                        },
                    },
                },
            },
        },
    }
}

pub open spec fn rewrite_error_text() -> Seq<char> {
    "Invalid HTML rewrite pattern"@
}

/// The HTML cleaned for conversion.
pub fn preprocess_html(html: &str, base_url: &str) -> (r: Result<String, String>)
    ensures
        match r {
            Ok(u) => spec_preprocess(html@, base_url@) == Some(u@),
            Err(e) => spec_preprocess(html@, base_url@) is None && e@ == rewrite_error_text(),
        },
{
    let bv = str_chars(base_url);
    let wiki = str_chars("/wiki");
    let root = crate::strutil::chars_trim_end_sub(&bv, &wiki);
    let rewrite_err = || -> (e: String)
        ensures
            e@ == rewrite_error_text(),
        {
            String::from_str("Invalid HTML rewrite pattern")
        };
    proof {
        reveal_strlit("");
        assert(""@ =~= Seq::<char>::empty());
    }
    let c1 = match regex_replace_all("(?s)<style[^>]*>.*?</style>", html, "") {
        Some(u) => u,
        None => {
            return Err(rewrite_err());
        },
    };
    let c2 = match regex_replace_all(
        "(?s)<div class=\"panel[^\"]*\"[^>]*>\\s*<div class=\"panelContent[^\"]*\"[^>]*>(.*?)</div>\\s*</div>",
        c1.as_str(),
        "<blockquote>$1</blockquote>",
    ) {
        Some(u) => u,
        None => {
            return Err(rewrite_err());
        },
    };
    let c3 = match regex_replace_all(
        "(?s)<span[^>]*class=\"[^\"]*status-macro[^\"]*\"[^>]*>(.*?)</span>",
        c2.as_str(),
        "[$1]",
    ) {
        Some(u) => u,
        None => {
            return Err(rewrite_err());
        },
    };
    let href_head = str_chars("href=\"");
    let dollar_quote = str_chars("$1\"");
    let href_rep = {
        let m1 = chars_concat(&href_head, &root);
        let m2 = chars_concat(&m1, &dollar_quote);
        proof {
            assert(m2@ =~= "href=\""@ + spec_base_root(base_url@) + "$1\""@);
        }
        chars_string(&m2)
    };
    let c4 = match regex_replace_all("href=\"(/wiki[^\"]*)\"", c3.as_str(), href_rep.as_str()) {
        Some(u) => u,
        None => {
            return Err(rewrite_err());
        },
    };
    let src_head = str_chars("src=\"");
    let src_rep = {
        let m1 = chars_concat(&src_head, &root);
        let m2 = chars_concat(&m1, &dollar_quote);
        proof {
            assert(m2@ =~= "src=\""@ + spec_base_root(base_url@) + "$1\""@);
        }
        chars_string(&m2)
    };
    let c5 = match regex_replace_all("src=\"(/wiki[^\"]*)\"", c4.as_str(), src_rep.as_str()) {
        Some(u) => u,
        None => {
            return Err(rewrite_err());
        },
    };
    let c6 = match img_tags_rewritten(c5.as_str()) {
        Some(u) => u,
        None => {
            return Err(rewrite_err());
        },
    };
    Ok(decode_unicode_escapes_str(c6.as_str()))
}

/// How many leading lines belong to the table: the index of the first
/// non-table line.
pub open spec fn table_run_len(lines: Seq<Seq<char>>) -> int
    decreases lines.len(),
{
    if lines.len() == 0 {
        0
    } else if !is_table_line(lines[0]) {
        0
    } else {
        1 + table_run_len(lines.drop_first())
    }
}

proof fn lemma_table_run_len_bounds(lines: Seq<Seq<char>>)
    ensures
        0 <= table_run_len(lines) <= lines.len(),
        forall|t: int| 0 <= t < table_run_len(lines) ==> is_table_line(#[trigger] lines[t]),
        table_run_len(lines) < lines.len() ==> !is_table_line(lines[table_run_len(lines)]),
    decreases lines.len(),
{
    if lines.len() > 0 && is_table_line(lines[0]) {
        lemma_table_run_len_bounds(lines.drop_first());
        assert forall|t: int| 0 <= t < table_run_len(lines) implies is_table_line(
            #[trigger] lines[t],
        ) by {
            if t >= 1 {
                assert(is_table_line(lines.drop_first()[t - 1]));
                assert(lines.drop_first()[t - 1] == lines[t]);
            }
        }
    }
}

/// The separator row synthesized under a table's header: one ` --- ` cell
/// per header column.
pub open spec fn spec_sep_line_for(header: Seq<char>) -> Seq<char> {
    seq!['|'] + join_with(
        Seq::new(spec_table_cells(header).len(), |i: int| " --- "@),
        seq!['|'],
    ) + seq!['|']
}

#[verifier::loop_isolation(false)]
fn sep_line_for(header: &Vec<char>) -> (r: Vec<char>)
    ensures
        r@ == spec_sep_line_for(header@),
{
    let cells = table_cells(header);
    let columns = cells.len();
    proof {
        assert(columns == spec_table_cells(header@).len());
    }
    let mut pieces: Vec<Vec<char>> = Vec::new();
    let mut c: usize = 0;
    while c < columns
        invariant
            c <= columns,
            pieces@.len() == c,
            pieces@.map_values(|p: Vec<char>| p@) =~= Seq::new(c as nat, |i: int| " --- "@),
        decreases columns - c,
    {
        let dash = str_chars(" --- ");
        let ghost before = pieces@.map_values(|p: Vec<char>| p@);
        pieces.push(dash);
        proof {
            assert(pieces@.map_values(|p: Vec<char>| p@) =~= before.push(" --- "@));
            assert(before.push(" --- "@) =~= Seq::new((c + 1) as nat, |i: int| " --- "@));
        }
        c += 1;
    }
    let mut bar: Vec<char> = Vec::new();
    bar.push('|');
    let joined = join_chars(&pieces, &bar);
    let mut out: Vec<char> = Vec::new();
    out.push('|');
    let m1 = chars_concat(&out, &joined);
    let m2 = chars_concat(&m1, &bar);
    proof {
        assert(bar@ =~= seq!['|']);
        assert(out@ =~= seq!['|']);
        assert(m2@ =~= spec_sep_line_for(header@));
    }
    m2
}

/// What one table block becomes: a table that is nothing but a single
/// image collapses to the image; a table with no separator row under its
/// header gets one; anything else stands.
pub open spec fn emit_block(block: Seq<Seq<char>>) -> Seq<Seq<char>>
    recommends
        block.len() > 0,
{
    if block.len() == 2 && is_separator_like_row(block[1]) && spec_table_cells(block[0]).len()
        == 1 && is_image_only_cell(spec_table_cells(block[0])[0]) {
        seq![spec_table_cells(block[0])[0]]
    } else {
        let data_rows = block.filter(|row: Seq<char>| !is_table_sep_line(row));
        if data_rows.len() == 1 && spec_table_cells(data_rows[0]).len() == 1
            && is_image_only_cell(spec_table_cells(data_rows[0])[0]) {
            seq![spec_table_cells(data_rows[0])[0]]
        } else {
            let needs_sep = block.len() < 2 || !is_table_sep_line(block[1]);
            if needs_sep {
                if block.len() > 1 && is_separator_like_row(block[1]) {
                    seq![block[0], spec_sep_line_for(block[0])] + block.skip(2)
                } else {
                    seq![block[0], spec_sep_line_for(block[0])] + block.skip(1)
                }
            } else {
                block
            }
        }
    }
}

/// The lines with each table block repaired.
pub open spec fn process_lines(lines: Seq<Seq<char>>) -> Seq<Seq<char>>
    decreases lines.len(),
{
    if lines.len() == 0 {
        lines
    } else if !is_table_line(lines[0]) {
        seq![lines[0]] + process_lines(lines.drop_first())
    } else {
        let b = table_run_len(lines);
        if 1 <= b <= lines.len() {
            emit_block(lines.take(b)) + process_lines(lines.skip(b))
        } else {
            lines
        }
    }
}

/// The lines the repair works on: every lone list marker dropped, unless
/// they are kept by option.
pub open spec fn kept_lines(lines: Seq<Seq<char>>, keep: bool) -> Seq<Seq<char>> {
    if keep {
        lines
    } else {
        lines.filter(|l: Seq<char>| !is_empty_list_item(l))
    }
}

/// The converted text with empty list items dropped and tables repaired:
/// the text split on newlines, filtered, processed block by block, and
/// joined back.
pub open spec fn spec_postprocess(md: Seq<char>, keep: bool) -> Seq<char> {
    join_with(process_lines(kept_lines(split_char(md, '\n'), keep)), seq!['\n'])
}

/// Empty list items dropped and tables repaired, line by line.
#[verifier::rlimit(100)]
pub fn postprocess_markdown(markdown: &str, options: MarkdownOptions) -> (r: String)
    ensures
        r@ == spec_postprocess(markdown@, options.keep_empty_list_items),
{
    broadcast use vstd::seq_lib::group_seq_properties;

    let mv = str_chars(markdown);
    let raw = chars_split(&mv, '\n');
    let ghost raw_views = raw@.map_values(|l: Vec<char>| l@);
    let mut lines: Vec<Vec<char>> = Vec::new();
    let mut k: usize = 0;
    proof {
        reveal_with_fuel(Seq::<Seq<char>>::filter, 2);
        assert(raw_views.take(0).filter(|l: Seq<char>| !is_empty_list_item(l)) =~= Seq::<
            Seq<char>,
        >::empty());
        assert(raw_views.take(0) =~= Seq::<Seq<char>>::empty());
    }
    while k < raw.len()
        invariant
            k <= raw@.len(),
            raw_views == raw@.map_values(|l: Vec<char>| l@),
            lines@.map_values(|l: Vec<char>| l@) =~= kept_lines(
                raw_views.take(k as int),
                options.keep_empty_list_items,
            ),
        decreases raw@.len() - k,
    {
        let ghost before = lines@.map_values(|l: Vec<char>| l@);
        let line = chars_subrange(&raw[k], 0, raw[k].len());
        proof {
            assert(line@ =~= raw_views[k as int]);
        }
        if options.keep_empty_list_items || !empty_list_item(&line) {
            lines.push(line);
            proof {
                assert(lines@.map_values(|l: Vec<char>| l@) =~= before.push(
                    raw_views[k as int],
                ));
            }
        }
        proof {
            reveal_with_fuel(Seq::<Seq<char>>::filter, 2);
            let pred = |l: Seq<char>| !is_empty_list_item(l);
            let prefix = raw_views.take(k as int);
            let prefix1 = raw_views.take(k + 1);
            assert(prefix1 =~= prefix + seq![raw_views[k as int]]);
            Seq::filter_distributes_over_add(prefix, seq![raw_views[k as int]], pred);
            assert(seq![raw_views[k as int]].drop_last() =~= Seq::<Seq<char>>::empty());
            if pred(raw_views[k as int]) {
                assert(seq![raw_views[k as int]].filter(pred) =~= seq![raw_views[k as int]]);
            } else {
                assert(seq![raw_views[k as int]].filter(pred) =~= Seq::<Seq<char>>::empty());
            }
            assert(lines@.map_values(|l: Vec<char>| l@) =~= kept_lines(
                prefix1,
                options.keep_empty_list_items,
            ));
        }
        k += 1;
    }
    proof {
        assert(raw_views.take(raw_views.len() as int) =~= raw_views);
    }
    let ghost all = lines@.map_values(|l: Vec<char>| l@);
    let n = lines.len();
    let mut out: Vec<Vec<char>> = Vec::new();
    let mut idx: usize = 0;
    proof {
        assert(all.skip(0) =~= all);
    }
    while idx < n
        invariant
            idx <= n,
            n == lines@.len(),
            all == lines@.map_values(|l: Vec<char>| l@),
            process_lines(all) =~= out@.map_values(|l: Vec<char>| l@) + process_lines(
                all.skip(idx as int),
            ),
        decreases n - idx,
    {
        let ghost rest = all.skip(idx as int);
        let ghost out_before = out@.map_values(|l: Vec<char>| l@);
        if !table_line(&lines[idx]) {
            let line = chars_subrange(&lines[idx], 0, lines[idx].len());
            proof {
                assert(line@ =~= all[idx as int]);
                assert(rest[0] == all[idx as int]);
            }
            out.push(line);
            proof {
                assert(rest.drop_first() =~= all.skip(idx + 1));
                assert(out@.map_values(|l: Vec<char>| l@) =~= out_before.push(all[idx as int]));
                assert(out_before.push(all[idx as int]) + process_lines(all.skip(idx + 1))
                    =~= out_before + (seq![rest[0]] + process_lines(rest.drop_first())));
            }
            idx += 1;
        } else {
            let mut j = idx;
            while j < n && table_line(&lines[j])
                invariant
                    idx <= j <= n,
                    n == lines@.len(),
                    all == lines@.map_values(|l: Vec<char>| l@),
                    forall|t: int| idx <= t < j ==> is_table_line(#[trigger] all[t]),
                decreases n - j,
            {
                proof {
                    assert(lines@[j as int]@ == all[j as int]);
                }
                j += 1;
            }
            proof {
                lemma_table_run_len_bounds(rest);
                assert forall|u: int| 0 <= u < j - idx implies is_table_line(
                    #[trigger] rest[u],
                ) by {
                    assert(rest[u] == all[idx + u]);
                }
                if table_run_len(rest) < j - idx {
                    assert(!is_table_line(rest[table_run_len(rest)]));
                    assert(false);
                }
                if table_run_len(rest) > j - idx {
                    assert(j < n);
                    assert(rest[j - idx] == all[j as int]);
                    assert(is_table_line(all[j as int]));
                    assert(false);
                }
                assert(table_run_len(rest) == j - idx);
            }
            let ghost block = rest.take(j - idx);
            proof {
                assert forall|u: int| 0 <= u < j - idx implies #[trigger] block[u] == all[idx
                    + u] by {
                    assert(block[u] == rest[u]);
                }
            }
            let emitted = emit_exec(&lines, idx, j);
            proof {
                assert(lines@.subrange(idx as int, j as int).map_values(|l: Vec<char>| l@)
                    =~= block);
            }
            let mut t: usize = 0;
            let ghost emitted_views = emitted@.map_values(|l: Vec<char>| l@);
            while t < emitted.len()
                invariant
                    t <= emitted@.len(),
                    emitted_views == emitted@.map_values(|l: Vec<char>| l@),
                    out@.map_values(|l: Vec<char>| l@) =~= out_before + emitted_views.take(
                        t as int,
                    ),
                decreases emitted@.len() - t,
            {
                let ghost mid = out@.map_values(|l: Vec<char>| l@);
                let piece = chars_subrange(&emitted[t], 0, emitted[t].len());
                proof {
                    assert(piece@ =~= emitted_views[t as int]);
                }
                out.push(piece);
                proof {
                    assert(out@.map_values(|l: Vec<char>| l@) =~= mid.push(
                        emitted_views[t as int],
                    ));
                    assert(mid.push(emitted_views[t as int]) =~= out_before
                        + emitted_views.take(t + 1));
                }
                t += 1;
            }
            proof {
                assert(emitted_views.take(emitted_views.len() as int) =~= emitted_views);
                assert(rest.skip(j - idx) =~= all.skip(j as int));
                assert(process_lines(rest) == emit_block(block) + process_lines(
                    all.skip(j as int),
                ));
                assert(out@.map_values(|l: Vec<char>| l@) + process_lines(all.skip(j as int))
                    =~= out_before + (emit_block(block) + process_lines(all.skip(j as int))));
            }
            idx = j;
        }
    }
    proof {
        assert(all.skip(n as int) =~= Seq::<Seq<char>>::empty());
        assert(process_lines(Seq::<Seq<char>>::empty()) =~= Seq::<Seq<char>>::empty());
        assert(out@.map_values(|l: Vec<char>| l@) =~= process_lines(all));
        assert(kept_lines(raw_views, options.keep_empty_list_items) =~= all);
    }
    let mut newline: Vec<char> = Vec::new();
    newline.push('\n');
    let joined = join_chars(&out, &newline);
    proof {
        assert(newline@ =~= seq!['\n']);
    }
    chars_string(&joined)
}

/// One table block repaired, as [`emit_block`] says.
#[verifier::loop_isolation(false)]
#[verifier::rlimit(100)]
fn emit_exec(lines: &Vec<Vec<char>>, lo: usize, hi: usize) -> (r: Vec<Vec<char>>)
    requires
        lo < hi <= lines@.len(),
    ensures
        r@.map_values(|l: Vec<char>| l@) =~= emit_block(
            lines@.subrange(lo as int, hi as int).map_values(|l: Vec<char>| l@),
        ),
{
    broadcast use vstd::seq_lib::group_seq_properties;

    let ghost block = lines@.subrange(lo as int, hi as int).map_values(|l: Vec<char>| l@);
    proof {
        assert forall|u: int| 0 <= u < hi - lo implies #[trigger] block[u] == lines@[lo
            + u]@ by {
        }
        assert(block.len() == hi - lo);
    }
    if hi - lo == 2 && separator_like_row(&lines[lo + 1]) {
        let cells0 = table_cells(&lines[lo]);
        if cells0.len() == 1 && image_only_cell(&cells0[0]) {
            let mut r: Vec<Vec<char>> = Vec::new();
            proof {
                assert(cells0@.map_values(|c: Vec<char>| c@)[0] == cells0@[0]@);
            }
            r.push(chars_subrange(&cells0[0], 0, cells0[0].len()));
            proof {
                assert(r@.map_values(|l: Vec<char>| l@) =~= seq![
                    spec_table_cells(block[0])[0],
                ]);
            }
            return r;
        }
    }
    let mut data_rows: Vec<Vec<char>> = Vec::new();
    let mut i: usize = lo;
    proof {
        reveal_with_fuel(Seq::<Seq<char>>::filter, 2);
        assert(block.take(0).filter(|row: Seq<char>| !is_table_sep_line(row)) =~= Seq::<
            Seq<char>,
        >::empty());
        assert(block.take(0) =~= Seq::<Seq<char>>::empty());
    }
    while i < hi
        invariant
            lo <= i <= hi <= lines@.len(),
            block == lines@.subrange(lo as int, hi as int).map_values(|l: Vec<char>| l@),
            data_rows@.map_values(|l: Vec<char>| l@) =~= block.take(i - lo).filter(
                |row: Seq<char>| !is_table_sep_line(row),
            ),
        decreases hi - i,
    {
        let ghost before = data_rows@.map_values(|l: Vec<char>| l@);
        proof {
            assert(block[i - lo] == lines@[i as int]@);
        }
        if !table_sep_line(&lines[i]) {
            data_rows.push(chars_subrange(&lines[i], 0, lines[i].len()));
            proof {
                assert(data_rows@.map_values(|l: Vec<char>| l@) =~= before.push(
                    block[i - lo],
                ));
            }
        }
        proof {
            reveal_with_fuel(Seq::<Seq<char>>::filter, 2);
            let pred = |row: Seq<char>| !is_table_sep_line(row);
            let prefix = block.take(i - lo);
            let prefix1 = block.take(i - lo + 1);
            assert(prefix1 =~= prefix + seq![block[i - lo]]);
            Seq::filter_distributes_over_add(prefix, seq![block[i - lo]], pred);
            assert(seq![block[i - lo]].drop_last() =~= Seq::<Seq<char>>::empty());
            if pred(block[i - lo]) {
                assert(seq![block[i - lo]].filter(pred) =~= seq![block[i - lo]]);
            } else {
                assert(seq![block[i - lo]].filter(pred) =~= Seq::<Seq<char>>::empty());
            }
            assert(data_rows@.map_values(|l: Vec<char>| l@) =~= prefix1.filter(pred));
        }
        i += 1;
    }
    proof {
        assert(block.take(hi - lo) =~= block);
    }
    if data_rows.len() == 1 {
        let cells = table_cells(&data_rows[0]);
        if cells.len() == 1 && image_only_cell(&cells[0]) {
            let mut r: Vec<Vec<char>> = Vec::new();
            proof {
                assert(data_rows@.map_values(|l: Vec<char>| l@)[0] == data_rows@[0]@);
                assert(cells@.map_values(|c: Vec<char>| c@)[0] == cells@[0]@);
            }
            r.push(chars_subrange(&cells[0], 0, cells[0].len()));
            proof {
                let drows = block.filter(|row: Seq<char>| !is_table_sep_line(row));
                assert(r@.map_values(|l: Vec<char>| l@) =~= seq![
                    spec_table_cells(drows[0])[0],
                ]);
            }
            return r;
        }
    }
    let needs_sep = hi - lo < 2 || !table_sep_line(&lines[lo + 1]);
    proof {
        if hi - lo >= 2 {
            assert(block[1] == lines@[lo + 1]@);
        }
    }
    let mut r: Vec<Vec<char>> = Vec::new();
    if needs_sep {
        r.push(chars_subrange(&lines[lo], 0, lines[lo].len()));
        let sep = sep_line_for(&lines[lo]);
        r.push(sep);
        proof {
            assert(block[0] == lines@[lo as int]@);
            assert(r@.map_values(|l: Vec<char>| l@) =~= seq![
                block[0],
                spec_sep_line_for(block[0]),
            ]);
        }
        let start: usize = if hi - lo > 1 && separator_like_row(&lines[lo + 1]) {
            2
        } else {
            1
        };
        let mut t = lo + start;
        proof {
            assert(block.skip(start as int).len() == hi - lo - start);
        }
        while t < hi
            invariant
                lo + start <= t <= hi,
                start == 1 || start == 2,
                block == lines@.subrange(lo as int, hi as int).map_values(|l: Vec<char>| l@),
                r@.map_values(|l: Vec<char>| l@) =~= seq![
                    block[0],
                    spec_sep_line_for(block[0]),
                ] + block.subrange(start as int, t - lo),
            decreases hi - t,
        {
            let ghost mid = r@.map_values(|l: Vec<char>| l@);
            proof {
                assert(block[t - lo] == lines@[t as int]@);
            }
            r.push(chars_subrange(&lines[t], 0, lines[t].len()));
            proof {
                assert(r@.map_values(|l: Vec<char>| l@) =~= mid.push(block[t - lo]));
                assert(mid.push(block[t - lo]) =~= seq![block[0], spec_sep_line_for(block[0])]
                    + block.subrange(start as int, t - lo + 1));
            }
            t += 1;
        }
        proof {
            assert(block.subrange(start as int, hi - lo) =~= block.skip(start as int));
            if start == 2 {
                assert(r@.map_values(|l: Vec<char>| l@) =~= seq![
                    block[0],
                    spec_sep_line_for(block[0]),
                ] + block.skip(2));
            } else {
                assert(r@.map_values(|l: Vec<char>| l@) =~= seq![
                    block[0],
                    spec_sep_line_for(block[0]),
                ] + block.skip(1));
            }
        }
        r
    } else {
        let mut t = lo;
        while t < hi
            invariant
                lo <= t <= hi,
                block == lines@.subrange(lo as int, hi as int).map_values(|l: Vec<char>| l@),
                r@.map_values(|l: Vec<char>| l@) =~= block.take(t - lo),
            decreases hi - t,
        {
            let ghost mid = r@.map_values(|l: Vec<char>| l@);
            proof {
                assert(block[t - lo] == lines@[t as int]@);
            }
            r.push(chars_subrange(&lines[t], 0, lines[t].len()));
            proof {
                assert(r@.map_values(|l: Vec<char>| l@) =~= mid.push(block[t - lo]));
                assert(mid.push(block[t - lo]) =~= block.take(t - lo + 1));
            }
            t += 1;
        }
        proof {
            assert(block.take(hi - lo) =~= block);
        }
        r
    }
}

/// What the whole conversion yields: the HTML preprocessed, converted, the
/// tables repaired, and the result trimmed.
pub open spec fn spec_html_to_markdown(html: Seq<char>, base_url: Seq<char>, keep: bool) -> Option<
    Seq<char>,
> {
    match spec_preprocess(html, base_url) {
        None => None,
        Some(cleaned) => match markdown_of(cleaned) {
            None => None,
            Some(md) => Some(trimmed(spec_postprocess(md, keep))),
        },
    }
}

pub open spec fn convert_error_text() -> Seq<char> {
    "HTML conversion failed"@
}

/// The page HTML as structured text.
pub fn html_to_markdown_with_options(html: &str, base_url: &str, options: MarkdownOptions) -> (r:
    Result<String, String>)
    ensures
        match r {
            Ok(u) => spec_html_to_markdown(html@, base_url@, options.keep_empty_list_items)
                == Some(u@),
            Err(e) => spec_html_to_markdown(html@, base_url@, options.keep_empty_list_items)
                is None && (e@ == rewrite_error_text() || e@ == convert_error_text()),
        },
{
    let cleaned = match preprocess_html(html, base_url) {
        Ok(u) => u,
        Err(e) => {
            return Err(e);
        },
    };
    let md = match htmd_convert(cleaned.as_str()) {
        Some(u) => u,
        None => {
            return Err(String::from_str("HTML conversion failed"));
        },
    };
    let repaired = postprocess_markdown(md.as_str(), options);
    let rv = str_chars(repaired.as_str());
    let t = chars_trim(&rv);
    Ok(chars_string(&t))
}

/// The page HTML as structured text, with the default options.
pub fn html_to_markdown(html: &str, base_url: &str) -> (r: Result<String, String>)
    ensures
        match r {
            Ok(u) => spec_html_to_markdown(html@, base_url@, false) == Some(u@),
            Err(e) => spec_html_to_markdown(html@, base_url@, false) is None && (e@
                == rewrite_error_text() || e@ == convert_error_text()),
        },
{
    html_to_markdown_with_options(html, base_url, MarkdownOptions { keep_empty_list_items: false })
}

} // verus!
