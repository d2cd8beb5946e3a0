//! The authentication boundary: a bearer token against the configured API
//! token, or HTTP Basic credentials against the configured key pair, with
//! the two compatibility paths accepted when no key pair is configured.
//!
//! Basic credentials are compared byte-wise against the configured keys,
//! which is equality of the decoded text wherever the original text form is
//! defined.

use vstd::prelude::*;

use base64::engine::general_purpose::STANDARD;
use base64::Engine;

use crate::text::{has_prefix, str_chars, str_eq, string_from_chars, trim_chars, trim_spaces};

verus! {

/// The immutable credential configuration.
pub struct AuthConfig {
    pub api_bearer_token: String,
    pub public_key: Option<String>,
    pub secret_key: Option<String>,
}

/// The mathematical value of an [`AuthConfig`].
#[verifier::ext_equal]
pub struct AuthConfigData {
    pub api_bearer_token: Seq<char>,
    pub public_key: Option<Seq<char>>,
    pub secret_key: Option<Seq<char>>,
}

impl View for AuthConfig {
    type V = AuthConfigData;

    open spec fn view(&self) -> AuthConfigData {
        AuthConfigData {
            api_bearer_token: self.api_bearer_token@,
            public_key: crate::ingest::view_opt_str(self.public_key),
            secret_key: crate::ingest::view_opt_str(self.secret_key),
        }
    }
}

/// A parsed Authorization header.
pub enum AuthHeaderData {
    Bearer(Seq<char>),
    Basic(Seq<u8>, Seq<u8>),
}

/// What `base64::engine::general_purpose::STANDARD.decode` yields on a text:
/// the decoded bytes, absent exactly when the text is not valid standard
/// base64. The result depends on the text alone.
pub uninterp spec fn b64_decoded(s: Seq<char>) -> Option<Seq<u8>>;

/// Relies on the base64 crate's standard-alphabet engine for decoding.
#[verifier::external_body]
fn base64_decode(input: &str) -> (r: Option<Vec<u8>>)
    ensures
        match r {
            Some(v) => b64_decoded(input@) == Some(v@),
            None => b64_decoded(input@) is None,
        },
{
    STANDARD.decode(input.as_bytes()).ok()
}

/// The position of the first colon byte.
pub open spec fn colon_index(b: Seq<u8>) -> Option<int>
    decreases b.len(),
{
    if b.len() == 0 {
        None
    } else if b.first() == 58 {
        Some(0)
    } else {
        match colon_index(b.drop_first()) {
            Some(i) => Some(i + 1),
            None => None,
        }
    }
}

/// The credential an Authorization header carries: `Bearer` followed by a
/// token, or `Basic` followed by base64 of `user:password`. `None` when the
/// header is absent or has neither shape.
pub open spec fn spec_extract_auth(h: Option<Seq<char>>) -> Option<AuthHeaderData> {
    match h {
        None => None,
        Some(v0) => {
            let v = trim_spaces(v0);
            if has_prefix(v, "Bearer "@) {
                Some(AuthHeaderData::Bearer(trim_spaces(v.skip(7))))
            } else if has_prefix(v, "Basic "@) {
                match b64_decoded(trim_spaces(v.skip(6))) {
                    Some(bytes) => match colon_index(bytes) {
                        Some(i) => Some(
                            AuthHeaderData::Basic(bytes.take(i), bytes.skip(i + 1)),
                        ),
                        None => None,
                    },
                    None => None,
                }
            } else {
                None
            }
        },
    }
}

/// The UTF-8 bytes of a text.
pub open spec fn utf8_bytes(s: Seq<char>) -> Seq<u8> {
    vstd::utf8::encode_utf8(s)
}

/// Whether a request is authorized: a bearer token equal to the configured
/// one; Basic credentials equal to the configured key pair; or, on the two
/// compatibility paths, anything but a bearer mismatch while no key pair is
/// configured.
pub open spec fn spec_authorize(
    cfg: AuthConfigData,
    h: Option<Seq<char>>,
    compat_path: bool,
) -> bool {
    let unconfigured = cfg.public_key is None && cfg.secret_key is None;
    match spec_extract_auth(h) {
        Some(AuthHeaderData::Bearer(t)) => t == cfg.api_bearer_token,
        Some(AuthHeaderData::Basic(u, p)) => (match (cfg.public_key, cfg.secret_key) {
            (Some(pk), Some(sk)) => u == utf8_bytes(pk) && p == utf8_bytes(sk),
            _ => false,
        }) || (compat_path && unconfigured),
        None => compat_path && unconfigured,
    }
}

/// Law, authentication boundary: on a protected path outside the
/// compatibility set, a request is authorized exactly when it carries the
/// configured bearer token or the configured key pair — any request lacking
/// a valid credential is refused. The decision reads no other state.
pub proof fn lemma_auth_boundary(cfg: AuthConfigData, h: Option<Seq<char>>)
    ensures
        spec_authorize(cfg, h, false) <==> (match spec_extract_auth(h) {
            Some(AuthHeaderData::Bearer(t)) => t == cfg.api_bearer_token,
            Some(AuthHeaderData::Basic(u, p)) => match (cfg.public_key, cfg.secret_key) {
                (Some(pk), Some(sk)) => u == utf8_bytes(pk) && p == utf8_bytes(sk),
                _ => false,
            },
            None => false,
        }),
{
}

fn find_colon(b: &Vec<u8>) -> (r: Option<usize>)
    ensures
        match r {
            Some(i) => i < b@.len() && colon_index(b@) == Some(i as int),
            None => colon_index(b@) is None,
        },
{
    let n = b.len();
    let mut i: usize = 0;
    while i < n
        invariant
            0 <= i <= n,
            n == b@.len(),
            forall|j: int| 0 <= j < i ==> b@[j] != 58,
        decreases n - i,
    {
        if b[i] == 58 {
            proof {
                lemma_colon_index_at(b@, i as int);
            }
            return Some(i);
        }
        i = i + 1;
    }
    proof {
        lemma_colon_index_none(b@);
    }
    None
}

proof fn lemma_colon_index_at(b: Seq<u8>, i: int)
    requires
        0 <= i < b.len(),
        b[i] == 58,
        forall|j: int| 0 <= j < i ==> b[j] != 58,
    ensures
        colon_index(b) == Some(i),
    decreases i,
{
    if i > 0 {
        lemma_colon_index_at(b.drop_first(), i - 1);
    }
}

proof fn lemma_colon_index_none(b: Seq<u8>)
    requires
        forall|j: int| 0 <= j < b.len() ==> b[j] != 58,
    ensures
        colon_index(b) is None,
    decreases b.len(),
{
    if b.len() > 0 {
        lemma_colon_index_none(b.drop_first());
    }
}

fn bytes_eq_str(b: &Vec<u8>, from: usize, to: usize, s: &str) -> (r: bool)
    requires
        from <= to <= b@.len(),
    ensures
        r == (b@.subrange(from as int, to as int) == utf8_bytes(s@)),
{
    let sb = s.as_bytes();
    proof {
        vstd::string::StringSliceAdditionalSpecFns::spec_bytes(s);
    }
    let ns = sb.len();
    if to - from != ns {
        proof {
            assert(b@.subrange(from as int, to as int).len() != utf8_bytes(s@).len());
        }
        return false;
    }
    let mut i: usize = 0;
    while i < ns
        invariant
            0 <= i <= ns,
            ns == sb@.len(),
            sb@ == utf8_bytes(s@),
            from + ns <= b@.len(),
            to == from + ns,
            forall|j: int| 0 <= j < i ==> b@[from + j] == sb@[j],
        decreases ns - i,
    {
        if b[from + i] != sb[i] {
            proof {
                assert(b@.subrange(from as int, to as int)[i as int] != utf8_bytes(s@)[i as int]);
            }
            return false;
        }
        i = i + 1;
    }
    proof {
        assert(b@.subrange(from as int, to as int) =~= utf8_bytes(s@));
    }
    true
}

/// Decides a request: the Authorization header value, if any, against the
/// configuration, with the compatibility-path allowance.
pub fn authorize(cfg: &AuthConfig, header: Option<&str>, compat_path: bool) -> (r: bool)
    ensures
        r == spec_authorize(cfg@, match header {
            Some(s) => Some(s@),
            None => None,
        }, compat_path),
{
    let unconfigured = cfg.public_key.is_none() && cfg.secret_key.is_none();
    let value = match header {
        Some(s) => s,
        None => {
            return compat_path && unconfigured;
        },
    };
    let chars = str_chars(value);
    let t = trim_chars(&chars);
    proof {
        reveal_strlit("Bearer ");
        reveal_strlit("Basic ");
    }
    let bearer_prefix = str_chars("Bearer ");
    let basic_prefix = str_chars("Basic ");
    if crate::text::chars_have_prefix(&t, &bearer_prefix) {
        let n = t.len();
        let mut rest: Vec<char> = Vec::new();
        let mut i: usize = 7;
        proof {
            assert(rest@ =~= t@.subrange(7, 7));
        }
        while i < n
            invariant
                7 <= i <= n,
                n == t@.len(),
                n >= 7,
                rest@ == t@.subrange(7, i as int),
            decreases n - i,
        {
            rest.push(t[i]);
            proof {
                assert(rest@ =~= t@.subrange(7, i + 1));
            }
            i = i + 1;
        }
        proof {
            assert(rest@ =~= t@.skip(7));
        }
        let token = trim_chars(&rest);
        let cfg_chars = str_chars(cfg.api_bearer_token.as_str());
        let r = chars_eq_local(&token, &cfg_chars);
        return r;
    }
    if crate::text::chars_have_prefix(&t, &basic_prefix) {
        let n = t.len();
        let mut rest: Vec<char> = Vec::new();
        let mut i: usize = 6;
        proof {
            assert(rest@ =~= t@.subrange(6, 6));
        }
        while i < n
            invariant
                6 <= i <= n,
                n == t@.len(),
                n >= 6,
                rest@ == t@.subrange(6, i as int),
            decreases n - i,
        {
            rest.push(t[i]);
            proof {
                assert(rest@ =~= t@.subrange(6, i + 1));
            }
            i = i + 1;
        }
        proof {
            assert(rest@ =~= t@.skip(6));
        }
        let payload = trim_chars(&rest);
        let payload_str = string_from_chars(&payload);
        let decoded = match base64_decode(payload_str.as_str()) {
            Some(v) => v,
            None => {
                return compat_path && unconfigured;
            },
        };
        let colon = match find_colon(&decoded) {
            Some(i) => i,
            None => {
                return compat_path && unconfigured;
            },
        };
        let keys_match: bool = match (&cfg.public_key, &cfg.secret_key) {
            (Some(pk), Some(sk)) => {
                let u_ok = bytes_eq_str(&decoded, 0, colon, pk.as_str());
                let p_ok = bytes_eq_str(&decoded, colon + 1, decoded.len(), sk.as_str());
                proof {
                    assert(decoded@.subrange(0, colon as int) =~= decoded@.take(colon as int));
                    assert(decoded@.subrange(colon + 1, decoded@.len() as int) =~= decoded@.skip(
                        colon + 1,
                    ));
                }
                u_ok && p_ok
            },
            _ => false,
        };
        return keys_match || (compat_path && unconfigured);
    }
    compat_path && unconfigured
}

fn chars_eq_local(a: &Vec<char>, b: &Vec<char>) -> (r: bool)
    ensures
        r == (a@ == b@),
{
    let na = a.len();
    if na != b.len() {
        return false;
    }
    let mut i: usize = 0;
    while i < na
        invariant
            0 <= i <= na,
            na == a@.len(),
            na == b@.len(),
            forall|j: int| 0 <= j < i ==> a@[j] == b@[j],
        decreases na - i,
    {
        if a[i] != b[i] {
            return false;
        }
        i = i + 1;
    }
    proof {
        assert(a@ =~= b@);
    }
    true
}

/// Whether a path is one of the two compatibility paths the boundary relaxes
/// for.
pub fn is_compat_path(path: &str) -> (r: bool)
    ensures
        r == (path@ == "/api/public/projects"@ || path@ == "/api/public/otel/v1/traces"@),
{
    str_eq(path, "/api/public/projects") || str_eq(path, "/api/public/otel/v1/traces")
}

} // verus!
