//! Request-body negotiation: the gzip marker, the media type, inflation of a
//! compressed body, and the OTLP content kinds.

use vstd::prelude::*;

use std::io::Read;

use flate2::read::GzDecoder;

use crate::api::ApiError;
use crate::text::{ascii_lower_seq, lower_chars, str_chars, str_eq, string_from_chars, trim_chars, trim_spaces};

verus! {

/// `sub` occurs in `s`.
pub open spec fn contains_seq(s: Seq<char>, sub: Seq<char>) -> bool {
    exists|i: int| 0 <= i <= s.len() - sub.len() && #[trigger] s.subrange(i, i + sub.len()) == sub
}

/// A Content-Encoding value marks gzip when its ASCII-lower-cased text
/// contains `gzip`.
pub open spec fn spec_is_gzip(encoding: Option<Seq<char>>) -> bool {
    match encoding {
        Some(s) => contains_seq(ascii_lower_seq(s), "gzip"@),
        None => false,
    }
}

/// Whether a Content-Encoding header value asks for gzip inflation.
pub fn is_gzip(encoding: Option<&str>) -> (r: bool)
    ensures
        r == spec_is_gzip(match encoding {
            Some(s) => Some(s@),
            None => None,
        }),
{
    let s = match encoding {
        Some(s) => s,
        None => {
            return false;
        },
    };
    let chars = str_chars(s);
    let lowered = lower_chars(&chars);
    proof {
        reveal_strlit("gzip");
    }
    let pat = str_chars("gzip");
    let n = lowered.len();
    let m = pat.len();
    if n < m {
        proof {
            assert(ascii_lower_seq(s@).len() - "gzip"@.len() < 0);
        }
        return false;
    }
    let mut i: usize = 0;
    while i <= n - m
        invariant
            0 <= i <= n - m + 1,
            m == 4,
            m <= n,
            n == lowered@.len(),
            lowered@ == ascii_lower_seq(s@),
            pat@ == "gzip"@,
            pat@.len() == m,
            (match encoding {
                Some(x) => x@ == s@,
                None => false,
            }),
            forall|j: int|
                0 <= j < i ==> #[trigger] lowered@.subrange(j, j + m) != pat@,
        decreases n - m - i + 1,
    {
        let mut k: usize = 0;
        let mut all = true;
        while k < m
            invariant
                0 <= k <= m,
                i + m <= n,
                m == pat@.len(),
                n == lowered@.len(),
                all ==> forall|j: int| 0 <= j < k ==> lowered@[i + j] == #[trigger] pat@[j],
                !all ==> exists|j: int| 0 <= j < k && lowered@[i + j] != #[trigger] pat@[j],
            decreases m - k,
        {
            if lowered[i + k] != pat[k] {
                all = false;
            }
            k = k + 1;
        }
        if all {
            proof {
                assert(lowered@.subrange(i as int, i + m) =~= pat@);
                assert(contains_seq(ascii_lower_seq(s@), "gzip"@));
            }
            return true;
        }
        proof {
            if lowered@.subrange(i as int, i + m) == pat@ {
                let w = choose|j: int| 0 <= j < m && lowered@[i + j] != pat@[j];
                assert(lowered@.subrange(i as int, i + m)[w] == lowered@[i + w]);
                assert(false);
            }
        }
        i = i + 1;
    }
    proof {
        assert(!contains_seq(ascii_lower_seq(s@), "gzip"@));
    }
    false
}

/// The position of the first semicolon.
pub open spec fn semi_index(s: Seq<char>) -> Option<int>
    decreases s.len(),
{
    if s.len() == 0 {
        None
    } else if s.first() == ';' {
        Some(0)
    } else {
        match semi_index(s.drop_first()) {
            Some(i) => Some(i + 1),
            None => None,
        }
    }
}

/// The media type of a Content-Type value: the text before any parameters,
/// trimmed and ASCII-lower-cased.
pub open spec fn spec_media_type(s: Seq<char>) -> Seq<char> {
    let head = match semi_index(s) {
        Some(i) => s.take(i),
        None => s,
    };
    ascii_lower_seq(trim_spaces(head))
}

proof fn lemma_semi_index_at(s: Seq<char>, i: int)
    requires
        0 <= i < s.len(),
        s[i] == ';',
        forall|j: int| 0 <= j < i ==> s[j] != ';',
    ensures
        semi_index(s) == Some(i),
    decreases i,
{
    if i > 0 {
        lemma_semi_index_at(s.drop_first(), i - 1);
    }
}

proof fn lemma_semi_index_none(s: Seq<char>)
    requires
        forall|j: int| 0 <= j < s.len() ==> s[j] != ';',
    ensures
        semi_index(s) is None,
    decreases s.len(),
{
    if s.len() > 0 {
        lemma_semi_index_none(s.drop_first());
    }
}

/// Extracts the media type of a Content-Type header value.
pub fn media_type(value: &str) -> (r: String)
    ensures
        r@ == spec_media_type(value@),
{
    let chars = str_chars(value);
    let n = chars.len();
    let mut head: Vec<char> = Vec::new();
    let mut i: usize = 0;
    proof {
        assert(head@ =~= chars@.subrange(0, 0));
    }
    while i < n && head.len() == i
        invariant
            0 <= i <= n,
            n == chars@.len(),
            chars@ == value@,
            head@.len() <= i,
            head@.len() == i ==> head@ == chars@.subrange(0, i as int) && forall|j: int|
                0 <= j < i ==> chars@[j] != ';',
            head@.len() < i ==> i - 1 < n && chars@[i - 1] == ';' && head@ == chars@.subrange(
                0,
                i - 1,
            ) && (forall|j: int| 0 <= j < i - 1 ==> chars@[j] != ';'),
        decreases n - i,
    {
        if chars[i] == ';' {
            proof {
                lemma_semi_index_at(chars@, i as int);
            }
        } else {
            head.push(chars[i]);
            proof {
                assert(head@ =~= chars@.subrange(0, i + 1));
            }
        }
        i = i + 1;
    }
    proof {
        if head@.len() == i {
            lemma_semi_index_none(chars@);
            assert(head@ =~= chars@);
        } else {
            lemma_semi_index_at(chars@, i - 1);
            assert(head@ =~= chars@.take(i - 1));
        }
    }
    let trimmed = trim_chars(&head);
    let lowered = lower_chars(&trimmed);
    string_from_chars(&lowered)
}

/// The body formats the OTLP endpoint takes.
#[derive(Clone, Copy, PartialEq, Eq, Structural, Debug)]
pub enum ContentKind {
    Json,
    Protobuf,
    Unsupported,
}

/// The content kind a media type denotes; an absent Content-Type counts as
/// JSON.
pub open spec fn spec_content_kind(ct: Option<Seq<char>>) -> ContentKind {
    match ct {
        None => ContentKind::Json,
        Some(s) => if spec_media_type(s) == "application/json"@ {
            ContentKind::Json
        } else if spec_media_type(s) == "application/x-protobuf"@ {
            ContentKind::Protobuf
        } else {
            ContentKind::Unsupported
        },
    }
}

/// Decides how an OTLP body is parsed from its Content-Type value.
pub fn content_kind(ct: Option<&str>) -> (r: ContentKind)
    ensures
        r == spec_content_kind(match ct {
            Some(s) => Some(s@),
            None => None,
        }),
{
    let s = match ct {
        Some(s) => s,
        None => {
            return ContentKind::Json;
        },
    };
    let mt = media_type(s);
    if str_eq(mt.as_str(), "application/json") {
        ContentKind::Json
    } else if str_eq(mt.as_str(), "application/x-protobuf") {
        ContentKind::Protobuf
    } else {
        ContentKind::Unsupported
    }
}

/// What gzip inflation of a byte string yields: the inflated bytes, absent
/// exactly when the input is not a well-formed gzip stream. The result
/// depends on the bytes alone.
pub uninterp spec fn gunzipped(b: Seq<u8>) -> Option<Seq<u8>>;

/// Relies on flate2's GzDecoder for inflation.
#[verifier::external_body]
fn gunzip(data: &Vec<u8>) -> (r: Option<Vec<u8>>)
    ensures
        match r {
            Some(v) => gunzipped(data@) == Some(v@),
            None => gunzipped(data@) is None,
        },
{
    let mut decoder = GzDecoder::new(data.as_slice());
    let mut out = Vec::new();
    decoder.read_to_end(&mut out).ok().map(|_| out)
}

/// Inflates the body when the request is gzip-encoded; a body that is not
/// well-formed gzip is a bad request.
pub fn decode_body(gzip: bool, body: Vec<u8>) -> (r: Result<Vec<u8>, ApiError>)
    ensures
        ({
            if !gzip {
                r matches Ok(v) && v@ == body@
            } else {
                match gunzipped(body@) {
                    Some(v) => r matches Ok(out) && out@ == v,
                    None => r matches Err(e) && e matches ApiError::BadRequest(m) && m@
                        == "gzip decode failed"@,
                }
            }
        }),
{
    if !gzip {
        return Ok(body);
    }
    match gunzip(&body) {
        Some(v) => Ok(v),
        None => Err(ApiError::BadRequest("gzip decode failed".to_owned())),
    }
}

} // verus!
