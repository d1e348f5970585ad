//! Bearer-token authentication.
use vstd::prelude::*;
use vstd::utf8::{encode_utf8, encode_utf8_decode_utf8};

use crate::api::{opt_view, ApiError};
use crate::text::{dec, dec_string, starts_with, str_eq, strip_prefix, trim, trimmed};

verus! {

/// The token that requests have to carry; None lets every request in.
#[derive(Debug, Clone, PartialEq, Eq)]
pub struct AuthConfig {
    pub token: Option<String>,
}

impl AuthConfig {
    pub fn open() -> (r: Self)
        ensures
            r.token is None,
    {
        AuthConfig { token: None }
    }

    pub fn with_token(token: String) -> (r: Self)
        ensures
            r.token == Some(token),
    {
        AuthConfig { token: Some(token) }
    }
}

/// Reads every byte and keeps none.
fn read_all(s: &[u8]) -> (r: u8)
    ensures
        r == 0,
{
    let mut seen: u8 = 0;
    let mut i: usize = 0;
    while i < s.len()
        invariant
            i <= s@.len(),
            seen == 0,
        decreases s@.len() - i,
    {
        seen = seen.wrapping_add(s[i].wrapping_mul(0));
        i += 1;
    }
    seen
}

/// Whether two byte strings are equal. How long it takes does not depend on
/// where they differ: every byte of both is read.
pub fn constant_time_eq(a: &[u8], b: &[u8]) -> (r: bool)
    ensures
        r == (a@ == b@),
{
    if a.len() != b.len() {
        let read_a = read_all(a);
        let read_b = read_all(b);
        let _ = read_a | read_b;
        return false;
    }
    let mut diff: u8 = 0;
    let mut i: usize = 0;
    while i < a.len()
        invariant
            i <= a@.len(),
            a@.len() == b@.len(),
            diff == 0 <==> (forall|j: int| 0 <= j < i ==> a@[j] == b@[j]),
        decreases a@.len() - i,
    {
        let x = a[i];
        let y = b[i];
        proof {
            assert((diff | (x ^ y)) == 0 <==> (diff == 0 && x == y)) by (bit_vector);
        }
        diff = diff | (x ^ y);
        i += 1;
    }
    if diff == 0 {
        assert(a@ =~= b@);
    }
    diff == 0
}

/// The token that an `Authorization` header presents; empty where it presents
/// none.
pub open spec fn presented(header: Option<Seq<char>>) -> Seq<char> {
    let p = "Bearer "@;
    match header {
        Some(h) => if p.is_prefix_of(h) {
            trim(h.skip(p.len() as int))
        } else {
            trim(Seq::empty())
        },
        None => trim(Seq::empty()),
    }
}

/// Whether a request for `path` with this `Authorization` header gets in.
pub open spec fn admitted(token: Option<Seq<char>>, path: Seq<char>, header: Option<Seq<char>>) -> bool {
    ||| path == "/healthz"@
    ||| token is None
    ||| presented(header).len() > 0 && presented(header) == token->0
}

/// Lets a request in, or says why not. The health check is open to everyone;
/// everything else needs the token where there is one. `header` is the
/// request's `Authorization` header, where it has one that is text.
pub fn require_token(cfg: &AuthConfig, path: &str, header: &Option<String>) -> (r: Result<
    (),
    ApiError,
>)
    ensures
        match r {
            Ok(_) => admitted(opt_view(cfg.token), path@, opt_view(*header)),
            Err(e) => {
                &&& !admitted(opt_view(cfg.token), path@, opt_view(*header))
                &&& e.is(401, if presented(opt_view(*header)).len() == 0 {
                    "missing bearer token"@
                } else {
                    "invalid bearer token"@
                })
            },
        },
{
    if str_eq(path, "/healthz") {
        return Ok(());
    }
    let expected = match &cfg.token {
        Some(t) => t.as_str(),
        None => {
            return Ok(());
        },
    };
    let rest = match header {
        Some(h) => match strip_prefix(h.as_str(), "Bearer ") {
            Some(t) => t,
            None => String::new(),
        },
        None => String::new(),
    };
    let token = trimmed(rest.as_str());
    if token.as_str().unicode_len() == 0 {
        return Err(ApiError::new(401, "missing bearer token"));
    }
    let same = constant_time_eq(token.as_str().as_bytes(), expected.as_bytes());
    proof {
        encode_utf8_decode_utf8(token@);
        encode_utf8_decode_utf8(expected@);
    }
    if !same {
        return Err(ApiError::new(401, "invalid bearer token"));
    }
    Ok(())
}

/// Why a token is not accepted.
#[derive(Debug, Clone, PartialEq, Eq)]
pub enum TokenError {
    Empty,
    /// The placeholder of a deployment manifest.
    Placeholder { token: String },
    TooShort { bytes: usize },
}

impl TokenError {
    pub open spec fn text(self) -> Seq<char> {
        match self {
            TokenError::Empty => "token is empty"@,
            TokenError::Placeholder { token } => "token still contains the manifest placeholder ("@
                + token@
                + "); replace it with a real 32-byte secret before starting the daemon"@,
            TokenError::TooShort { bytes } => "token is only "@ + dec(bytes as nat)
                + " bytes; use at least 16 bytes of high-entropy randomness"@,
        }
    }

    pub fn message(&self) -> (r: String)
        ensures
            r@ == self.text(),
    {
        match self {
            TokenError::Empty => "token is empty".to_string(),
            TokenError::Placeholder { token } => "token still contains the manifest placeholder (".to_string().concat(
                token.as_str(),
            ).concat("); replace it with a real 32-byte secret before starting the daemon"),
            TokenError::TooShort { bytes } => {
                let n = dec_string(*bytes as u64);
                "token is only ".to_string().concat(n.as_str()).concat(
                    " bytes; use at least 16 bytes of high-entropy randomness",
                )
            },
        }
    }
}

/// Whether a token is the placeholder of a deployment manifest.
pub open spec fn is_placeholder(tok: Seq<char>) -> bool {
    "REPLACE_ME"@.is_prefix_of(tok) || "CHANGE_ME"@.is_prefix_of(tok)
}

/// Rejects tokens that are empty, placeholders or too short.
pub fn validate_token(tok: &str) -> (r: Result<(), TokenError>)
    ensures
        match r {
            Ok(_) => tok@.len() > 0 && !is_placeholder(tok@) && encode_utf8(tok@).len() >= 16,
            Err(TokenError::Empty) => tok@.len() == 0,
            Err(TokenError::Placeholder { token }) => tok@.len() > 0 && is_placeholder(tok@)
                && token@ == tok@,
            Err(TokenError::TooShort { bytes }) => tok@.len() > 0 && !is_placeholder(tok@) && bytes
                == encode_utf8(tok@).len() && bytes < 16,
        },
{
    if tok.unicode_len() == 0 {
        return Err(TokenError::Empty);
    }
    if starts_with(tok, "REPLACE_ME") || starts_with(tok, "CHANGE_ME") {
        return Err(TokenError::Placeholder { token: tok.to_string() });
    }
    let bytes: usize = tok.as_bytes().len();
    if bytes < 16 {
        return Err(TokenError::TooShort { bytes });
    }
    Ok(())
}

/// The authentication that a token file asks for: none without a file, else
/// the file's text without the white space around it.
pub fn auth_from_file(contents: &Option<String>) -> (r: Result<AuthConfig, TokenError>)
    ensures
        match *contents {
            None => r matches Ok(c) && c.token is None,
            Some(raw) => match r {
                Ok(c) => {
                    &&& opt_view(c.token) == Some(trim(raw@))
                    &&& trim(raw@).len() > 0
                    &&& !is_placeholder(trim(raw@))
                    &&& encode_utf8(trim(raw@)).len() >= 16
                },
                Err(TokenError::Empty) => trim(raw@).len() == 0,
                Err(TokenError::Placeholder { token }) => {
                    &&& trim(raw@).len() > 0
                    &&& is_placeholder(trim(raw@))
                    &&& token@ == trim(raw@)
                },
                Err(TokenError::TooShort { bytes }) => {
                    &&& trim(raw@).len() > 0
                    &&& !is_placeholder(trim(raw@))
                    &&& bytes == encode_utf8(trim(raw@)).len()
                    &&& bytes < 16
                },
            },
        },
{
    match contents {
        None => Ok(AuthConfig::open()),
        Some(raw) => {
            let tok = trimmed(raw.as_str());
            match validate_token(tok.as_str()) {
                Ok(_) => Ok(AuthConfig::with_token(tok)),
                Err(e) => Err(e),
            }
        },
    }
}

/// With a token in place, a request reaches nothing but the health check
/// unless its header carries exactly that token.
pub proof fn law_only_the_token_opens(token: Seq<char>, path: Seq<char>, header: Option<Seq<char>>)
    requires
        path != "/healthz"@,
        admitted(Some(token), path, header),
    ensures
        header is Some,
        "Bearer "@.is_prefix_of(header->0),
        trim(header->0.skip("Bearer "@.len() as int)) == token,
        token.len() > 0,
{
    assert(Seq::<char>::empty().len() == 0);
}

} // verus!
