//! The read API's envelopes: response wrapper, pagination metadata and laws,
//! the error kinds with their HTTP mappings, and the synthetic project
//! record.

use vstd::prelude::*;

use crate::json::{JsonData, JsonVal};

verus! {

/// A message envelope with optional payload.
pub struct ApiResponse<T> {
    pub message: String,
    pub data: Option<T>,
}

/// Pagination metadata of a paged response.
#[derive(Clone, Copy, PartialEq, Eq, Structural, Debug)]
pub struct PageMeta {
    pub page: i64,
    pub limit: i64,
    pub total_items: i64,
    pub total_pages: i64,
}

/// One page of data with its metadata.
pub struct PagedData<T> {
    pub data: Vec<T>,
    pub meta: PageMeta,
}

/// The error kinds the service surfaces, with their HTTP status mapping.
#[derive(Debug, PartialEq)]
pub enum ApiError {
    BadRequest(String),
    Unauthorized,
    NotFound,
    TooManyRequests,
    ServiceUnavailable,
    Internal,
}

/// The HTTP status an error maps to.
pub open spec fn spec_status_code(e: ApiError) -> u16 {
    match e {
        ApiError::BadRequest(_) => 400,
        ApiError::Unauthorized => 401,
        ApiError::NotFound => 404,
        ApiError::TooManyRequests => 429,
        ApiError::ServiceUnavailable => 503,
        ApiError::Internal => 500,
    }
}

/// The response message of an error.
pub open spec fn spec_error_message(e: ApiError) -> Seq<char> {
    match e {
        ApiError::BadRequest(m) => m@,
        ApiError::Unauthorized => "Unauthorized"@,
        ApiError::NotFound => "Not Found"@,
        ApiError::TooManyRequests => "Too Many Requests"@,
        ApiError::ServiceUnavailable => "Service Unavailable"@,
        ApiError::Internal => "Internal Error"@,
    }
}

impl ApiError {
    /// The HTTP status code of this error.
    pub fn status_code(&self) -> (r: u16)
        ensures
            r == spec_status_code(*self),
    {
        match self {
            ApiError::BadRequest(_) => 400,
            ApiError::Unauthorized => 401,
            ApiError::NotFound => 404,
            ApiError::TooManyRequests => 429,
            ApiError::ServiceUnavailable => 503,
            ApiError::Internal => 500,
        }
    }

    /// The message of this error's response body.
    pub fn message(&self) -> (r: String)
        ensures
            r@ == spec_error_message(*self),
    {
        match self {
            ApiError::BadRequest(m) => m.clone(),
            ApiError::Unauthorized => "Unauthorized".to_owned(),
            ApiError::NotFound => "Not Found".to_owned(),
            ApiError::TooManyRequests => "Too Many Requests".to_owned(),
            ApiError::ServiceUnavailable => "Service Unavailable".to_owned(),
            ApiError::Internal => "Internal Error".to_owned(),
        }
    }

    /// The status and body message of this error's response, as the shell
    /// sends them.
    pub fn to_response_parts(self) -> (r: (u16, String))
        ensures
            r.0 == spec_status_code(self),
            r.1@ == spec_error_message(self),
    {
        let status = self.status_code();
        let message = self.message();
        (status, message)
    }
}

/// The synthetic record describing the configured default project.
pub struct Project {
    pub id: String,
    pub name: String,
    pub created_at: String,
    pub updated_at: String,
    pub metadata: Option<JsonVal>,
}

/// The single project record the projects endpoint returns: id and name are
/// the configured project id, both instants the render of "now", the
/// metadata an empty object.
pub fn project_record(project_id: &String, now_rfc3339: &String) -> (r: Project)
    ensures
        r.id@ == project_id@,
        r.name@ == project_id@,
        r.created_at@ == now_rfc3339@,
        r.updated_at@ == now_rfc3339@,
        r.metadata matches Some(m) && m@ == JsonData::Obj(Seq::empty()),
{
    Project {
        id: project_id.clone(),
        name: project_id.clone(),
        created_at: now_rfc3339.clone(),
        updated_at: now_rfc3339.clone(),
        metadata: Some(JsonVal::empty_object()),
    }
}

// --- pagination -----------------------------------------------------------

/// The page number used: the given one, at least 1; default 1.
pub open spec fn spec_page_number(page: Option<i64>) -> int {
    match page {
        Some(p) => if p < 1 {
            1
        } else {
            p as int
        },
        None => 1,
    }
}

/// The page size used: the given one clamped to `[1, 200]`; default 50.
pub open spec fn spec_page_limit(limit: Option<i64>) -> int {
    match limit {
        Some(l) => if l < 1 {
            1
        } else if l > 200 {
            200
        } else {
            l as int
        },
        None => 50,
    }
}

/// Resolves the requested page number and size.
pub fn resolve_page(page: Option<i64>, limit: Option<i64>) -> (r: (i64, i64))
    ensures
        r.0 == spec_page_number(page),
        r.1 == spec_page_limit(limit),
        1 <= r.0,
        1 <= r.1 <= 200,
{
    let p = match page {
        Some(p) => if p < 1 {
            1
        } else {
            p
        },
        None => 1,
    };
    let l = match limit {
        Some(l) => if l < 1 {
            1
        } else if l > 200 {
            200
        } else {
            l
        },
        None => 50,
    };
    (p, l)
}

/// The page count: zero for no items, else the total divided by the limit,
/// rounded up.
pub open spec fn spec_total_pages(total: int, limit: int) -> int {
    if total == 0 {
        0
    } else {
        (total + limit - 1) / limit
    }
}

/// Computes the page count.
pub fn total_pages(total: i64, limit: i64) -> (r: i64)
    requires
        0 <= total <= 0x7fff_ffff_ffff_0000,
        1 <= limit <= 200,
    ensures
        r == spec_total_pages(total as int, limit as int),
{
    if total == 0 {
        0
    } else {
        (total + limit - 1) / limit
    }
}

/// One page of a sequence: the window `[(page-1)*limit, ..)` of at most
/// `limit` elements.
pub open spec fn spec_page_slice<T>(s: Seq<T>, page: int, limit: int) -> Seq<T> {
    let off = (page - 1) * limit;
    if off >= s.len() || off < 0 {
        Seq::empty()
    } else if off + limit <= s.len() {
        s.subrange(off, off + limit)
    } else {
        s.subrange(off, s.len() as int)
    }
}

/// Law: a page never exceeds the limit.
pub proof fn lemma_page_within_limit<T>(s: Seq<T>, page: int, limit: int)
    requires
        page >= 1,
        limit >= 1,
    ensures
        spec_page_slice(s, page, limit).len() <= limit,
{
}

/// The concatenation of pages 1 through `p`.
pub open spec fn pages_concat<T>(s: Seq<T>, limit: int, p: int) -> Seq<T>
    decreases p,
{
    if p <= 0 {
        Seq::empty()
    } else {
        pages_concat(s, limit, p - 1) + spec_page_slice(s, p, limit)
    }
}

/// Law: concatenating pages 1..p under the stable order yields a prefix of
/// the full sequence with no duplicates — exactly its first
/// `min(p*limit, len)` elements; with `p` the total page count, the whole
/// sequence.
pub proof fn lemma_pages_cover<T>(s: Seq<T>, limit: int, p: int)
    requires
        limit >= 1,
        p >= 0,
    ensures
        pages_concat(s, limit, p) == (if p * limit <= s.len() {
            s.take(p * limit)
        } else {
            s
        }),
        p >= spec_total_pages(s.len() as int, limit) ==> pages_concat(s, limit, p) == s,
    decreases p,
{
    if p == 0 {
        assert(p * limit == 0) by (nonlinear_arith)
            requires
                p == 0,
        ;
        assert(pages_concat(s, limit, 0) =~= s.take(0));
        if 0 >= spec_total_pages(s.len() as int, limit) {
            assert(s.len() == 0) by {
                if s.len() > 0 {
                    assert((s.len() + limit - 1) / limit as int >= 1) by (nonlinear_arith)
                        requires
                            limit >= 1,
                            s.len() >= 1,
                    ;
                }
            }
            assert(s.take(0) =~= s);
        }
    } else {
        lemma_pages_cover(s, limit, p - 1);
        let off = (p - 1) * limit;
        assert(off >= 0) by (nonlinear_arith)
            requires
                p >= 1,
                limit >= 1,
                off == (p - 1) * limit,
        ;
        assert(p * limit == off + limit) by (nonlinear_arith)
            requires
                off == (p - 1) * limit,
        ;
        if off >= s.len() {
            if off <= s.len() {
                assert(s.take(off) =~= s);
            }
            assert(pages_concat(s, limit, p - 1) == s);
            assert(spec_page_slice(s, p, limit) =~= Seq::<T>::empty());
            assert(pages_concat(s, limit, p) =~= s);
            assert(p * limit > s.len());
        } else if off + limit <= s.len() {
            assert(pages_concat(s, limit, p - 1) == s.take(off));
            assert(pages_concat(s, limit, p) =~= s.take(off + limit));
        } else {
            assert(pages_concat(s, limit, p - 1) == s.take(off));
            assert(pages_concat(s, limit, p) =~= s);
        }
        if p >= spec_total_pages(s.len() as int, limit) && s.len() > 0 {
            assert(p * limit >= s.len()) by (nonlinear_arith)
                requires
                    limit >= 1,
                    s.len() > 0,
                    p >= (s.len() + limit - 1) / limit as int,
            ;
            if p * limit <= s.len() {
                assert(s.take(p * limit) =~= s);
            }
        }
    }
}

} // verus!
