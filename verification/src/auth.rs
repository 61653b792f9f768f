//! Credentials and the `Authorization` header they produce.
use vstd::prelude::*;
use base64::Engine;
use crate::strutil::{chars_concat, chars_string, str_chars};

verus! {

/// What the standard base64 alphabet, with padding, makes of the UTF-8
/// bytes of `s`.
pub uninterp spec fn base64_standard_of(s: Seq<char>) -> Seq<char>;

/// Relies on base64's `Engine::encode` with the `STANDARD` engine: the
/// encoding is a function of the input bytes alone.
#[verifier::external_body]
fn base64_encode(s: &str) -> (r: String)
    ensures
        r@ == base64_standard_of(s@),
{
    base64::engine::general_purpose::STANDARD.encode(s.as_bytes())
}

/// A credential for the remote service: either basic (identity plus secret)
/// or a bearer token. Immutable once loaded; never logged.
#[derive(Debug, Clone)]
pub enum AuthMethod {
    Basic { email: String, token: String },
    Bearer { token: String },
}

impl AuthMethod {
    pub fn is_basic(&self) -> (r: bool)
        ensures
            r == (self is Basic),
    {
        match self {
            AuthMethod::Basic { .. } => true,
            AuthMethod::Bearer { .. } => false,
        }
    }

    pub fn description(&self) -> (r: &'static str)
        ensures
            self is Basic ==> r@ == "basic"@,
            self is Bearer ==> r@ == "bearer"@,
    {
        match self {
            AuthMethod::Basic { .. } => "basic",
            AuthMethod::Bearer { .. } => "bearer",
        }
    }

    /// The `Authorization` header value this credential produces: basic is
    /// the base64 of `identity:secret`, bearer is the raw secret.
    pub fn authorization_header_value(&self) -> (r: String)
        ensures
            self matches AuthMethod::Basic { email, token } ==> r@ == "Basic "@
                + base64_standard_of(email@ + seq![':'] + token@),
            self matches AuthMethod::Bearer { token } ==> r@ == "Bearer "@ + token@,
    {
        match self {
            AuthMethod::Basic { email, token } => {
                let e = str_chars(email.as_str());
                let t = str_chars(token.as_str());
                let mut colon: Vec<char> = Vec::new();
                colon.push(':');
                let raw1 = chars_concat(&e, &colon);
                let raw = chars_concat(&raw1, &t);
                proof {
                    assert(colon@ =~= seq![':']);
                    assert(raw@ =~= email@ + seq![':'] + token@);
                }
                let raw_s = chars_string(&raw);
                let encoded = base64_encode(raw_s.as_str());
                let head = str_chars("Basic ");
                let enc = str_chars(encoded.as_str());
                let out = chars_concat(&head, &enc);
                chars_string(&out)
            },
            AuthMethod::Bearer { token } => {
                let head = str_chars("Bearer ");
                let t = str_chars(token.as_str());
                let out = chars_concat(&head, &t);
                chars_string(&out)
            },
        }
    }
}

} // verus!
