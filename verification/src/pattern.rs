//! Glob-style exclusion patterns, translated to anchored case-insensitive
//! regular expressions.
use vstd::prelude::*;
use crate::strutil::{chars_string, str_chars};

verus! {

/// What one glob character contributes to the regex: `*` any run, `?` any
/// one character, regex metacharacters escaped, anything else itself.
pub open spec fn spec_glob_char(c: char) -> Seq<char> {
    if c == '*' {
        ".*"@
    } else if c == '?' {
        "."@
    } else if c == '.' || c == '+' || c == '(' || c == ')' || c == '|' || c == '^' || c == '$'
        || c == '{' || c == '}' || c == '[' || c == ']' || c == '\\' {
        seq!['\\', c]
    } else {
        seq![c]
    }
}

pub open spec fn spec_glob_body(s: Seq<char>) -> Seq<char>
    decreases s.len(),
{
    if s.len() == 0 {
        Seq::<char>::empty()
    } else {
        spec_glob_char(s[0]) + spec_glob_body(s.drop_first())
    }
}

/// The anchored regex text for a glob pattern.
pub open spec fn spec_glob_regex(glob: Seq<char>) -> Seq<char> {
    seq!['^'] + spec_glob_body(glob) + seq!['$']
}

/// The anchored regex text a glob translates to; matching is done
/// case-insensitively by [`glob_match_ci`].
#[verifier::loop_isolation(false)]
pub fn glob_to_regex_ci(glob: &str) -> (r: String)
    ensures
        r@ == spec_glob_regex(glob@),
{
    let g = str_chars(glob);
    let mut out: Vec<char> = Vec::new();
    out.push('^');
    proof {
        assert(out@ =~= seq!['^'] + spec_glob_body(g@.subrange(0, 0)));
    }
    let mut i: usize = 0;
    while i < g.len()
        invariant
            i <= g@.len(),
            out@ == seq!['^'] + spec_glob_body(g@.subrange(0, i as int)),
        decreases g@.len() - i,
    {
        let c = g[i];
        let ghost prefix = g@.subrange(0, i as int);
        let ghost prefix1 = g@.subrange(0, i + 1);
        proof {
            lemma_glob_body_push(prefix, c);
            assert(prefix.push(c) =~= prefix1);
        }
        if c == '*' {
            out.push('.');
            out.push('*');
        } else if c == '?' {
            out.push('.');
        } else if c == '.' || c == '+' || c == '(' || c == ')' || c == '|' || c == '^' || c
            == '$' || c == '{' || c == '}' || c == '[' || c == ']' || c == '\\' {
            out.push('\\');
            out.push(c);
        } else {
            out.push(c);
        }
        i += 1;
        proof {
            if c == '*' {
                assert(spec_glob_char(c) =~= seq!['.', '*']) by {
                    reveal_strlit(".*");
                }
            } else if c == '?' {
                assert(spec_glob_char(c) =~= seq!['.']) by {
                    reveal_strlit(".");
                }
            }
            assert(out@ =~= seq!['^'] + spec_glob_body(prefix1));
        }
    }
    out.push('$');
    proof {
        assert(g@.subrange(0, g@.len() as int) =~= g@);
        assert(out@ =~= spec_glob_regex(glob@));
    }
    chars_string(&out)
}

proof fn lemma_glob_body_push(s: Seq<char>, c: char)
    ensures
        spec_glob_body(s.push(c)) == spec_glob_body(s) + spec_glob_char(c),
    decreases s.len(),
{
    if s.len() == 0 {
        assert(s.push(c)[0] == c);
        assert(s.push(c).drop_first() =~= Seq::<char>::empty());
        assert(spec_glob_body(Seq::<char>::empty()) =~= Seq::<char>::empty());
        assert(spec_glob_body(s.push(c)) == spec_glob_char(c) + spec_glob_body(
            s.push(c).drop_first(),
        ));
        assert(spec_glob_body(s.push(c)) =~= spec_glob_char(c));
        assert(spec_glob_body(s) + spec_glob_char(c) =~= spec_glob_char(c));
    } else {
        assert(s.push(c).drop_first() =~= s.drop_first().push(c));
        lemma_glob_body_push(s.drop_first(), c);
        assert(s.push(c)[0] == s[0]);
        assert(spec_glob_char(s[0]) + (spec_glob_body(s.drop_first()) + spec_glob_char(c)) =~= (
        spec_glob_char(s[0]) + spec_glob_body(s.drop_first())) + spec_glob_char(c));
    }
}

/// What compiling `pattern` case-insensitively and matching `text` yields:
/// nothing where the pattern is invalid.
pub uninterp spec fn regex_ci_match_of(pattern: Seq<char>, text: Seq<char>) -> Option<bool>;

/// Relies on regex's `RegexBuilder` (case-insensitive) and `Regex::is_match`:
/// both are functions of the pattern and text alone.
#[verifier::external_body]
fn regex_ci_is_match(pattern: &str, text: &str) -> (r: Option<bool>)
    ensures
        r == regex_ci_match_of(pattern@, text@),
{
    match regex::RegexBuilder::new(pattern).case_insensitive(true).build() {
        Ok(re) => Some(re.is_match(text)),
        Err(_) => None,
    }
}

/// What compiling `pattern` case-sensitively and matching `text` yields:
/// nothing where the pattern is invalid.
pub uninterp spec fn regex_match_of(pattern: Seq<char>, text: Seq<char>) -> Option<bool>;

/// Relies on regex's `Regex::new` and `Regex::is_match`: both are functions
/// of the pattern and text alone.
#[verifier::external_body]
pub fn regex_is_match(pattern: &str, text: &str) -> (r: Option<bool>)
    ensures
        r == regex_match_of(pattern@, text@),
{
    match regex::Regex::new(pattern) {
        Ok(re) => Some(re.is_match(text)),
        Err(_) => None,
    }
}

pub open spec fn invalid_glob_text() -> Seq<char> {
    "Invalid glob pattern"@
}

/// Whether `text` matches the glob, case-insensitively and anchored at
/// both ends.
pub fn glob_match_ci(glob: &str, text: &str) -> (r: Result<bool, String>)
    ensures
        match r {
            Ok(b) => regex_ci_match_of(spec_glob_regex(glob@), text@) == Some(b),
            Err(e) => regex_ci_match_of(spec_glob_regex(glob@), text@) is None && e@
                == invalid_glob_text(),
        },
{
    let pattern = glob_to_regex_ci(glob);
    match regex_ci_is_match(pattern.as_str(), text) {
        Some(b) => Ok(b),
        None => Err(String::from_str("Invalid glob pattern")),
    }
}

} // verus!
