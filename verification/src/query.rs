//! The trace-list query: field-selection mask, whitelisted ordering, filter
//! composition, deterministic sorting and pagination.

use vstd::prelude::*;

use crate::api::{
    resolve_page, spec_page_limit, spec_page_number, spec_page_slice, spec_total_pages,
    total_pages, ApiError, PagedData, PageMeta,
};
use crate::codec::{ts_le, ts_lt, ts_before, uuid_string_of, Timestamp, UuidVal};
use crate::ingest::{clone_opt_string, clone_vec_string, view_opt_json, view_opt_str};
use crate::json::{JsonData, JsonVal};
use crate::otlp::string_vec_view;
use crate::store::{opt_str_or, ObservationRowData, Store, TraceRow, TraceRowData};
use crate::text::{str_chars, str_eq, trim_chars, trim_spaces};

verus! {

// --- field-selection mask ---------------------------------------------------

/// Which optional sub-structures a trace-list response carries.
#[derive(Clone, Copy, PartialEq, Eq, Structural, Debug)]
pub struct TraceFieldsMask {
    pub io: bool,
    pub scores: bool,
    pub observations: bool,
    pub metrics: bool,
}

/// Comma-splitting with an accumulated current piece.
pub open spec fn split_from(cur: Seq<char>, rest: Seq<char>) -> Seq<Seq<char>>
    decreases rest.len(),
{
    if rest.len() == 0 {
        seq![cur]
    } else if rest.first() == ',' {
        seq![cur] + split_from(Seq::empty(), rest.drop_first())
    } else {
        split_from(cur.push(rest.first()), rest.drop_first())
    }
}

/// The comma-separated pieces of a text.
pub open spec fn split_commas(s: Seq<char>) -> Seq<Seq<char>> {
    split_from(Seq::empty(), s)
}

/// Some piece, trimmed, is the token.
pub open spec fn has_token(pieces: Seq<Seq<char>>, tok: Seq<char>) -> bool {
    exists|i: int| 0 <= i < pieces.len() && trim_spaces(#[trigger] pieces[i]) == tok
}

/// The mask a `fields` parameter selects: absent selects everything; present,
/// exactly the named sub-structures.
pub open spec fn spec_parse_trace_fields(fields: Option<Seq<char>>) -> TraceFieldsMask {
    match fields {
        None => TraceFieldsMask { io: true, scores: true, observations: true, metrics: true },
        Some(s) => {
            let ps = split_commas(s);
            TraceFieldsMask {
                io: has_token(ps, "io"@),
                scores: has_token(ps, "scores"@),
                observations: has_token(ps, "observations"@),
                metrics: has_token(ps, "metrics"@),
            }
        },
    }
}

/// Law, field-mask contract: with `fields` given and `io` not named, the mask
/// omits input, output and metadata; with `metrics` not named, latency and
/// total cost are masked.
pub proof fn lemma_field_mask(fields: Seq<char>)
    ensures
        !has_token(split_commas(fields), "io"@) ==> !spec_parse_trace_fields(Some(fields)).io,
        !has_token(split_commas(fields), "metrics"@) ==> !spec_parse_trace_fields(
            Some(fields),
        ).metrics,
{
}

fn chars_eq(a: &Vec<char>, b: &Vec<char>) -> (r: bool)
    ensures
        r == (a@ == b@),
{
    let na = a.len();
    if na != b.len() {
        return false;
    }
    let mut i: usize = 0;
    while i < na
        invariant
            0 <= i <= na,
            na == a@.len(),
            na == b@.len(),
            forall|j: int| 0 <= j < i ==> a@[j] == b@[j],
        decreases na - i,
    {
        if a[i] != b[i] {
            return false;
        }
        i = i + 1;
    }
    proof {
        assert(a@ =~= b@);
    }
    true
}

fn split_comma_pieces(s: &str) -> (r: Vec<Vec<char>>)
    ensures
        Seq::new(r@.len(), |i: int| r@[i]@) == split_commas(s@),
{
    let chars = str_chars(s);
    let n = chars.len();
    let mut pieces: Vec<Vec<char>> = Vec::new();
    let mut cur: Vec<char> = Vec::new();
    let mut i: usize = 0;
    proof {
        assert(chars@.skip(0) =~= chars@);
        assert(cur@ =~= Seq::<char>::empty());
    }
    while i < n
        invariant
            0 <= i <= n,
            n == chars@.len(),
            chars@ == s@,
            split_commas(s@) == Seq::new(pieces@.len(), |k: int| pieces@[k]@) + split_from(
                cur@,
                chars@.skip(i as int),
            ),
        decreases n - i,
    {
        proof {
            assert(chars@.skip(i as int).first() == chars@[i as int]);
            assert(chars@.skip(i as int).drop_first() =~= chars@.skip(i + 1));
        }
        let c = chars[i];
        if c == ',' {
            let ghost ps0 = Seq::new(pieces@.len(), |k: int| pieces@[k]@);
            pieces.push(cur);
            cur = Vec::new();
            proof {
                assert(Seq::new(pieces@.len(), |k: int| pieces@[k]@) =~= ps0.push(
                    pieces@[pieces@.len() - 1]@,
                ));
                assert(ps0.push(pieces@[pieces@.len() - 1]@) + split_from(
                    cur@,
                    chars@.skip(i + 1),
                ) =~= ps0 + (seq![pieces@[pieces@.len() - 1]@] + split_from(
                    Seq::empty(),
                    chars@.skip(i + 1),
                )));
                assert(cur@ =~= Seq::<char>::empty());
            }
        } else {
            cur.push(c);
        }
        i = i + 1;
    }
    proof {
        assert(chars@.skip(n as int) =~= Seq::<char>::empty());
    }
    let ghost ps0 = Seq::new(pieces@.len(), |k: int| pieces@[k]@);
    pieces.push(cur);
    proof {
        assert(Seq::new(pieces@.len(), |k: int| pieces@[k]@) =~= ps0.push(
            pieces@[pieces@.len() - 1]@,
        ));
        assert(ps0 + seq![pieces@[pieces@.len() - 1]@] =~= ps0.push(pieces@[pieces@.len() - 1]@));
    }
    pieces
}

fn pieces_have_token(pieces: &Vec<Vec<char>>, tok: &str) -> (r: bool)
    ensures
        r == has_token(Seq::new(pieces@.len(), |i: int| pieces@[i]@), tok@),
{
    let ghost ps = Seq::new(pieces@.len(), |i: int| pieces@[i]@);
    let tok_chars = str_chars(tok);
    let n = pieces.len();
    let mut i: usize = 0;
    while i < n
        invariant
            0 <= i <= n,
            n == pieces@.len(),
            ps == Seq::new(pieces@.len(), |k: int| pieces@[k]@),
            tok_chars@ == tok@,
            forall|j: int| 0 <= j < i ==> trim_spaces(#[trigger] ps[j]) != tok@,
        decreases n - i,
    {
        let t = trim_chars(&pieces[i]);
        if chars_eq(&t, &tok_chars) {
            proof {
                assert(trim_spaces(ps[i as int]) == tok@);
            }
            return true;
        }
        i = i + 1;
    }
    false
}

/// Parses the `fields` parameter: a comma-separated subset of the optional
/// sub-structures, each piece trimmed; absent means everything.
pub fn parse_trace_fields(fields: Option<&str>) -> (r: TraceFieldsMask)
    ensures
        r == spec_parse_trace_fields(match fields {
            Some(s) => Some(s@),
            None => None,
        }),
{
    let s = match fields {
        Some(s) => s,
        None => {
            return TraceFieldsMask { io: true, scores: true, observations: true, metrics: true };
        },
    };
    let pieces = split_comma_pieces(s);
    TraceFieldsMask {
        io: pieces_have_token(&pieces, "io"),
        scores: pieces_have_token(&pieces, "scores"),
        observations: pieces_have_token(&pieces, "observations"),
        metrics: pieces_have_token(&pieces, "metrics"),
    }
}

// --- ordering ----------------------------------------------------------------

/// The columns a trace list may be ordered by.
#[derive(Clone, Copy, PartialEq, Eq, Structural, Debug)]
pub enum OrderColumn {
    Id,
    Timestamp,
    Name,
    UserId,
    Release,
    Version,
    Public,
    Bookmarked,
    SessionId,
    Latency,
    TotalCost,
}

/// The whitelisted column a name denotes, if any.
pub open spec fn column_of(name: Seq<char>) -> Option<OrderColumn> {
    if name == "id"@ {
        Some(OrderColumn::Id)
    } else if name == "timestamp"@ {
        Some(OrderColumn::Timestamp)
    } else if name == "name"@ {
        Some(OrderColumn::Name)
    } else if name == "userId"@ || name == "user_id"@ {
        Some(OrderColumn::UserId)
    } else if name == "release"@ {
        Some(OrderColumn::Release)
    } else if name == "version"@ {
        Some(OrderColumn::Version)
    } else if name == "public"@ {
        Some(OrderColumn::Public)
    } else if name == "bookmarked"@ {
        Some(OrderColumn::Bookmarked)
    } else if name == "sessionId"@ || name == "session_id"@ {
        Some(OrderColumn::SessionId)
    } else if name == "latency"@ {
        Some(OrderColumn::Latency)
    } else if name == "totalCost"@ || name == "total_cost"@ {
        Some(OrderColumn::TotalCost)
    } else {
        None
    }
}

/// The direction a column defaults to: descending for identifiers, instants,
/// flags and metrics; ascending otherwise.
pub open spec fn default_desc(c: OrderColumn) -> bool {
    match c {
        OrderColumn::Id => true,
        OrderColumn::Timestamp => true,
        OrderColumn::Public => true,
        OrderColumn::Bookmarked => true,
        OrderColumn::Latency => true,
        OrderColumn::TotalCost => true,
        _ => false,
    }
}

/// The position of the first dot.
pub open spec fn dot_index(s: Seq<char>) -> Option<int>
    decreases s.len(),
{
    if s.len() == 0 {
        None
    } else if s.first() == '.' {
        Some(0)
    } else {
        match dot_index(s.drop_first()) {
            Some(i) => Some(i + 1),
            None => None,
        }
    }
}

/// The column name and direction text of an `order_by` parameter: split at
/// the first dot; no dot means direction `desc`.
pub open spec fn order_parts(s: Seq<char>) -> (Seq<char>, Seq<char>) {
    match dot_index(s) {
        Some(i) => (s.take(i), s.skip(i + 1)),
        None => (s, "desc"@),
    }
}

/// What an `order_by` parameter denotes: the column and whether descending.
/// `None` for a column outside the whitelist. An unknown direction falls back
/// to the column's default.
pub open spec fn spec_parse_order_by(order_by: Option<Seq<char>>) -> Option<(OrderColumn, bool)> {
    let s = trim_spaces(match order_by {
        Some(x) => x,
        None => "timestamp.desc"@,
    });
    let parts = order_parts(s);
    match column_of(parts.0) {
        Some(c) => Some(
            (
                c,
                if parts.1 == "desc"@ {
                    true
                } else if parts.1 == "asc"@ {
                    false
                } else {
                    default_desc(c)
                },
            ),
        ),
        None => None,
    }
}

proof fn lemma_dot_index_at(s: Seq<char>, i: int)
    requires
        0 <= i < s.len(),
        s[i] == '.',
        forall|j: int| 0 <= j < i ==> s[j] != '.',
    ensures
        dot_index(s) == Some(i),
    decreases i,
{
    if i > 0 {
        lemma_dot_index_at(s.drop_first(), i - 1);
    }
}

proof fn lemma_dot_index_none(s: Seq<char>)
    requires
        forall|j: int| 0 <= j < s.len() ==> s[j] != '.',
    ensures
        dot_index(s) is None,
    decreases s.len(),
{
    if s.len() > 0 {
        lemma_dot_index_none(s.drop_first());
    }
}

fn find_dot(t: &Vec<char>) -> (r: usize)
    ensures
        r == (match dot_index(t@) {
            Some(i) => i,
            None => t@.len() as int,
        }),
        r <= t@.len(),
        r < t@.len() ==> dot_index(t@) == Some(r as int),
        r == t@.len() ==> dot_index(t@) is None,
{
    let n = t.len();
    let mut i: usize = 0;
    while i < n
        invariant
            0 <= i <= n,
            n == t@.len(),
            forall|j: int| 0 <= j < i ==> t@[j] != '.',
        decreases n - i,
    {
        if t[i] == '.' {
            proof {
                lemma_dot_index_at(t@, i as int);
            }
            return i;
        }
        i = i + 1;
    }
    proof {
        lemma_dot_index_none(t@);
    }
    n
}

fn chars_eq_str(a: &Vec<char>, b: &str) -> (r: bool)
    ensures
        r == (a@ == b@),
{
    let bc = str_chars(b);
    chars_eq(a, &bc)
}

/// Parses the `order_by` parameter against the whitelist; default
/// `timestamp.desc`. Any column outside the whitelist is a bad request; an
/// invalid direction falls back to the column's default.
pub fn parse_order_by(order_by: Option<&str>) -> (r: Result<(OrderColumn, bool), ApiError>)
    ensures
        ({
            let o = match order_by {
                Some(s) => Some(s@),
                None => None,
            };
            match spec_parse_order_by(o) {
                Some(cd) => r == Ok::<(OrderColumn, bool), ApiError>(cd),
                None => r matches Err(e) && e matches ApiError::BadRequest(m)
                    && m@ == "invalid order_by"@,
            }
        }),
{
    let raw: &str = match order_by {
        Some(s) => s,
        None => "timestamp.desc",
    };
    let chars = str_chars(raw);
    let t = trim_chars(&chars);
    let n = t.len();
    let dot = find_dot(&t);
    let mut col_chars: Vec<char> = Vec::new();
    let mut dir_chars: Vec<char> = Vec::new();
    if dot < n {
        let mut k: usize = 0;
        while k < dot
            invariant
                0 <= k <= dot < n,
                n == t@.len(),
                col_chars@ == t@.subrange(0, k as int),
            decreases dot - k,
        {
            col_chars.push(t[k]);
            proof {
                assert(col_chars@ =~= t@.subrange(0, k + 1));
            }
            k = k + 1;
        }
        let mut m: usize = dot + 1;
        while m < n
            invariant
                dot < m <= n || m == dot + 1,
                dot + 1 <= m <= n,
                n == t@.len(),
                dir_chars@ == t@.subrange(dot + 1, m as int),
            decreases n - m,
        {
            dir_chars.push(t[m]);
            proof {
                assert(dir_chars@ =~= t@.subrange(dot + 1, m + 1));
            }
            m = m + 1;
        }
        proof {
            assert(col_chars@ =~= t@.take(dot as int));
            assert(dir_chars@ =~= t@.skip(dot + 1));
        }
    } else {
        let mut k: usize = 0;
        while k < n
            invariant
                0 <= k <= n,
                n == t@.len(),
                col_chars@ == t@.subrange(0, k as int),
            decreases n - k,
        {
            col_chars.push(t[k]);
            proof {
                assert(col_chars@ =~= t@.subrange(0, k + 1));
            }
            k = k + 1;
        }
        let dc = str_chars("desc");
        dir_chars = dc;
        proof {
            assert(col_chars@ =~= t@);
        }
    }
    let col = if chars_eq_str(&col_chars, "id") {
        OrderColumn::Id
    } else if chars_eq_str(&col_chars, "timestamp") {
        OrderColumn::Timestamp
    } else if chars_eq_str(&col_chars, "name") {
        OrderColumn::Name
    } else if chars_eq_str(&col_chars, "userId") || chars_eq_str(&col_chars, "user_id") {
        OrderColumn::UserId
    } else if chars_eq_str(&col_chars, "release") {
        OrderColumn::Release
    } else if chars_eq_str(&col_chars, "version") {
        OrderColumn::Version
    } else if chars_eq_str(&col_chars, "public") {
        OrderColumn::Public
    } else if chars_eq_str(&col_chars, "bookmarked") {
        OrderColumn::Bookmarked
    } else if chars_eq_str(&col_chars, "sessionId") || chars_eq_str(&col_chars, "session_id") {
        OrderColumn::SessionId
    } else if chars_eq_str(&col_chars, "latency") {
        OrderColumn::Latency
    } else if chars_eq_str(&col_chars, "totalCost") || chars_eq_str(&col_chars, "total_cost") {
        OrderColumn::TotalCost
    } else {
        return Err(ApiError::BadRequest("invalid order_by".to_owned()));
    };
    let desc = if chars_eq_str(&dir_chars, "desc") {
        true
    } else if chars_eq_str(&dir_chars, "asc") {
        false
    } else {
        match col {
            OrderColumn::Id => true,
            OrderColumn::Timestamp => true,
            OrderColumn::Public => true,
            OrderColumn::Bookmarked => true,
            OrderColumn::Latency => true,
            OrderColumn::TotalCost => true,
            _ => false,
        }
    };
    Ok((col, desc))
}

// --- the query and its result rows -----------------------------------------

/// The parameters of a trace-list request.
pub struct TraceListQuery {
    pub page: Option<i64>,
    pub limit: Option<i64>,
    pub user_id: Option<String>,
    pub name: Option<String>,
    pub session_id: Option<String>,
    pub from_timestamp: Option<Timestamp>,
    pub to_timestamp: Option<Timestamp>,
    pub order_by: Option<String>,
    pub tags: Vec<String>,
    pub version: Option<String>,
    pub release: Option<String>,
    pub environment: Vec<String>,
    pub fields: Option<String>,
}

/// The mathematical value of a [`TraceListQuery`].
#[verifier::ext_equal]
pub struct TraceListQueryData {
    pub page: Option<i64>,
    pub limit: Option<i64>,
    pub user_id: Option<Seq<char>>,
    pub name: Option<Seq<char>>,
    pub session_id: Option<Seq<char>>,
    pub from_timestamp: Option<Timestamp>,
    pub to_timestamp: Option<Timestamp>,
    pub order_by: Option<Seq<char>>,
    pub tags: Seq<Seq<char>>,
    pub version: Option<Seq<char>>,
    pub release: Option<Seq<char>>,
    pub environment: Seq<Seq<char>>,
    pub fields: Option<Seq<char>>,
}

impl View for TraceListQuery {
    type V = TraceListQueryData;

    open spec fn view(&self) -> TraceListQueryData {
        TraceListQueryData {
            page: self.page,
            limit: self.limit,
            user_id: view_opt_str(self.user_id),
            name: view_opt_str(self.name),
            session_id: view_opt_str(self.session_id),
            from_timestamp: self.from_timestamp,
            to_timestamp: self.to_timestamp,
            order_by: view_opt_str(self.order_by),
            tags: string_vec_view(self.tags@),
            version: view_opt_str(self.version),
            release: view_opt_str(self.release),
            environment: string_vec_view(self.environment@),
            fields: view_opt_str(self.fields),
        }
    }
}

/// One row of a trace-list response.
pub struct TraceListItem {
    pub id: UuidVal,
    pub timestamp: Timestamp,
    pub name: Option<String>,
    pub input: Option<JsonVal>,
    pub output: Option<JsonVal>,
    pub session_id: Option<String>,
    pub release: Option<String>,
    pub version: Option<String>,
    pub user_id: Option<String>,
    pub metadata: Option<JsonVal>,
    pub tags: Vec<String>,
    pub public: bool,
    pub environment: String,
    pub html_path: String,
    pub latency: Option<i64>,
    pub total_cost: Option<i64>,
    pub observations: Vec<String>,
    pub scores: Vec<String>,
}

/// The mathematical value of a [`TraceListItem`].
#[verifier::ext_equal]
pub struct TraceListItemData {
    pub id: UuidVal,
    pub timestamp: Timestamp,
    pub name: Option<Seq<char>>,
    pub input: Option<JsonData>,
    pub output: Option<JsonData>,
    pub session_id: Option<Seq<char>>,
    pub release: Option<Seq<char>>,
    pub version: Option<Seq<char>>,
    pub user_id: Option<Seq<char>>,
    pub metadata: Option<JsonData>,
    pub tags: Seq<Seq<char>>,
    pub public: bool,
    pub environment: Seq<char>,
    pub html_path: Seq<char>,
    pub latency: Option<i64>,
    pub total_cost: Option<i64>,
    pub observations: Seq<Seq<char>>,
    pub scores: Seq<Seq<char>>,
}

impl View for TraceListItem {
    type V = TraceListItemData;

    open spec fn view(&self) -> TraceListItemData {
        TraceListItemData {
            id: self.id,
            timestamp: self.timestamp,
            name: view_opt_str(self.name),
            input: view_opt_json(&self.input),
            output: view_opt_json(&self.output),
            session_id: view_opt_str(self.session_id),
            release: view_opt_str(self.release),
            version: view_opt_str(self.version),
            user_id: view_opt_str(self.user_id),
            metadata: view_opt_json(&self.metadata),
            tags: string_vec_view(self.tags@),
            public: self.public,
            environment: self.environment@,
            html_path: self.html_path@,
            latency: self.latency,
            total_cost: self.total_cost,
            observations: string_vec_view(self.observations@),
            scores: string_vec_view(self.scores@),
        }
    }
}

// --- filtering ----------------------------------------------------------------

/// Whether a trace row satisfies the query's filters, under the configured
/// project: equality filters, inclusive time bounds, tag superset, match-any
/// environment set.
pub open spec fn trace_matches(r: TraceRowData, q: TraceListQueryData, d: Seq<char>) -> bool {
    &&& r.project_id == d
    &&& match q.user_id {
        Some(u) => r.user_id == Some(u),
        None => true,
    }
    &&& match q.name {
        Some(x) => r.name == Some(x),
        None => true,
    }
    &&& match q.session_id {
        Some(x) => r.session_id == Some(x),
        None => true,
    }
    &&& match q.from_timestamp {
        Some(f) => ts_le(f, r.timestamp),
        None => true,
    }
    &&& match q.to_timestamp {
        Some(t) => ts_le(r.timestamp, t),
        None => true,
    }
    &&& match q.version {
        Some(x) => r.version == Some(x),
        None => true,
    }
    &&& match q.release {
        Some(x) => r.release == Some(x),
        None => true,
    }
    &&& forall|i: int| 0 <= i < q.tags.len() ==> r.tags.contains(#[trigger] q.tags[i])
    &&& (q.environment.len() == 0 || exists|i: int|
        0 <= i < q.environment.len() && r.environment == #[trigger] q.environment[i])
}

fn opt_str_matches(field: &Option<String>, want: &Option<String>) -> (r: bool)
    ensures
        r == (match view_opt_str(*want) {
            Some(u) => view_opt_str(*field) == Some(u),
            None => true,
        }),
{
    match want {
        Some(u) => match field {
            Some(f) => str_eq(f.as_str(), u.as_str()),
            None => false,
        },
        None => true,
    }
}

fn vec_contains_text(v: &Vec<String>, t: &str) -> (r: bool)
    ensures
        r == string_vec_view(v@).contains(t@),
{
    let n = v.len();
    let mut i: usize = 0;
    while i < n
        invariant
            0 <= i <= n,
            n == v@.len(),
            forall|j: int| 0 <= j < i ==> string_vec_view(v@)[j] != t@,
        decreases n - i,
    {
        if str_eq(v[i].as_str(), t) {
            proof {
                assert(string_vec_view(v@)[i as int] == t@);
            }
            return true;
        }
        i = i + 1;
    }
    proof {
        assert(forall|j: int| 0 <= j < string_vec_view(v@).len() ==> string_vec_view(v@)[j] != t@);
    }
    false
}

/// Whether a row passes the query's filters.
pub fn row_matches(row: &TraceRow, q: &TraceListQuery, default_project_id: &String) -> (r: bool)
    ensures
        r == trace_matches(row@, q@, default_project_id@),
{
    if !str_eq(row.project_id.as_str(), default_project_id.as_str()) {
        return false;
    }
    if !opt_str_matches(&row.user_id, &q.user_id) {
        return false;
    }
    if !opt_str_matches(&row.name, &q.name) {
        return false;
    }
    if !opt_str_matches(&row.session_id, &q.session_id) {
        return false;
    }
    match q.from_timestamp {
        Some(f) => {
            if ts_before(row.timestamp, f) {
                proof {
                    assert(!ts_le(f, row@.timestamp));
                }
                return false;
            }
        },
        None => {},
    }
    match q.to_timestamp {
        Some(t) => {
            if ts_before(t, row.timestamp) {
                return false;
            }
        },
        None => {},
    }
    if !opt_str_matches(&row.version, &q.version) {
        return false;
    }
    if !opt_str_matches(&row.release, &q.release) {
        return false;
    }
    if !tags_superset(&row.tags, &q.tags) {
        proof {
            assert(row@.tags == string_vec_view(row.tags@));
            assert(q@.tags == string_vec_view(q.tags@));
            assert(!(forall|i: int|
                0 <= i < q@.tags.len() ==> row@.tags.contains(#[trigger] q@.tags[i])));
        }
        return false;
    }
    if !env_matches(&row.environment, &q.environment) {
        proof {
            assert(row@.environment == row.environment@);
            assert(q@.environment == string_vec_view(q.environment@));
        }
        return false;
    }
    true
}

fn tags_superset(have: &Vec<String>, want: &Vec<String>) -> (r: bool)
    ensures
        r == (forall|i: int|
            0 <= i < want@.len() ==> string_vec_view(have@).contains(
                #[trigger] string_vec_view(want@)[i],
            )),
{
    let n = want.len();
    let mut i: usize = 0;
    while i < n
        invariant
            0 <= i <= n,
            n == want@.len(),
            forall|j: int|
                0 <= j < i ==> string_vec_view(have@).contains(
                    #[trigger] string_vec_view(want@)[j],
                ),
        decreases n - i,
    {
        if !vec_contains_text(have, want[i].as_str()) {
            proof {
                assert(!string_vec_view(have@).contains(string_vec_view(want@)[i as int]));
            }
            return false;
        }
        i = i + 1;
    }
    true
}

fn env_matches(env: &String, set: &Vec<String>) -> (r: bool)
    ensures
        r == (set@.len() == 0 || exists|i: int|
            0 <= i < set@.len() && env@ == #[trigger] string_vec_view(set@)[i]),
{
    if set.len() == 0 {
        return true;
    }
    let n = set.len();
    let mut k: usize = 0;
    while k < n
        invariant
            0 <= k <= n,
            n == set@.len(),
            forall|j: int| 0 <= j < k ==> env@ != #[trigger] string_vec_view(set@)[j],
        decreases n - k,
    {
        if str_eq(env.as_str(), set[k].as_str()) {
            proof {
                assert(env@ == string_vec_view(set@)[k as int]);
            }
            return true;
        }
        k = k + 1;
    }
    false
}

/// The indices of the rows that pass the filters, from `i` on, in store
/// order.
pub open spec fn filtered_from(
    rows: Seq<TraceRowData>,
    q: TraceListQueryData,
    d: Seq<char>,
    i: int,
) -> Seq<int>
    decreases rows.len() - i,
{
    if i < 0 || i >= rows.len() {
        Seq::empty()
    } else if trace_matches(rows[i], q, d) {
        seq![i] + filtered_from(rows, q, d, i + 1)
    } else {
        filtered_from(rows, q, d, i + 1)
    }
}

/// The views of an index vector.
pub open spec fn idxs_view(v: Seq<usize>) -> Seq<int> {
    Seq::new(v.len(), |i: int| v[i] as int)
}

fn filter_traces(store: &Store, q: &TraceListQuery, default_project_id: &String) -> (r: Vec<
    usize,
>)
    ensures
        idxs_view(r@) == filtered_from(store@.traces, q@, default_project_id@, 0),
        forall|j: int| 0 <= j < r@.len() ==> (#[trigger] r@[j]) < store.traces@.len(),
{
    let ghost rows = store@.traces;
    let n = store.traces.len();
    let mut out: Vec<usize> = Vec::new();
    let mut i: usize = 0;
    proof {
        assert(idxs_view(out@) =~= Seq::<int>::empty());
        assert(idxs_view(out@) + filtered_from(rows, q@, default_project_id@, 0) =~= filtered_from(
            rows,
            q@,
            default_project_id@,
            0,
        ));
    }
    while i < n
        invariant
            0 <= i <= n,
            n == store.traces@.len(),
            rows == store@.traces,
            q@ == q@,
            filtered_from(rows, q@, default_project_id@, 0) == idxs_view(out@) + filtered_from(
                rows,
                q@,
                default_project_id@,
                i as int,
            ),
            forall|j: int| 0 <= j < out@.len() ==> (#[trigger] out@[j]) < n,
        decreases n - i,
    {
        let keep = row_matches(&store.traces[i], q, default_project_id);
        if keep {
            let ghost v0 = idxs_view(out@);
            out.push(i);
            proof {
                assert(idxs_view(out@) =~= v0.push(i as int));
                assert(v0.push(i as int) + filtered_from(rows, q@, default_project_id@, i + 1)
                    =~= v0 + (seq![i as int] + filtered_from(rows, q@, default_project_id@, i + 1)));
            }
        }
        i = i + 1;
    }
    proof {
        assert(filtered_from(rows, q@, default_project_id@, n as int) =~= Seq::<int>::empty());
        assert(idxs_view(out@) + Seq::<int>::empty() =~= idxs_view(out@));
    }
    out
}

// --- deterministic ordering ----------------------------------------------------

/// Lexicographic order on character sequences, by code point.
pub open spec fn lex_lt(a: Seq<char>, b: Seq<char>) -> bool
    decreases a.len(),
{
    if b.len() == 0 {
        false
    } else if a.len() == 0 {
        true
    } else if a.first() < b.first() {
        true
    } else if b.first() < a.first() {
        false
    } else {
        lex_lt(a.drop_first(), b.drop_first())
    }
}

/// Order on optional texts: an absent value sorts last under ascending order.
pub open spec fn opt_text_lt(a: Option<Seq<char>>, b: Option<Seq<char>>) -> bool {
    match (a, b) {
        (Some(x), Some(y)) => lex_lt(x, y),
        (Some(_), None) => true,
        (None, _) => false,
    }
}

/// Order on optional numbers: an absent value sorts last under ascending
/// order.
pub open spec fn opt_i64_lt(a: Option<i64>, b: Option<i64>) -> bool {
    match (a, b) {
        (Some(x), Some(y)) => x < y,
        (Some(_), None) => true,
        (None, _) => false,
    }
}

/// The strict order a column induces on rows.
pub open spec fn col_lt(c: OrderColumn, a: TraceRowData, b: TraceRowData) -> bool {
    match c {
        OrderColumn::Id => a.id.value < b.id.value,
        OrderColumn::Timestamp => ts_lt(a.timestamp, b.timestamp),
        OrderColumn::Name => opt_text_lt(a.name, b.name),
        OrderColumn::UserId => opt_text_lt(a.user_id, b.user_id),
        OrderColumn::Release => opt_text_lt(a.release, b.release),
        OrderColumn::Version => opt_text_lt(a.version, b.version),
        OrderColumn::Public => !a.public && b.public,
        OrderColumn::Bookmarked => !a.bookmarked && b.bookmarked,
        OrderColumn::SessionId => opt_text_lt(a.session_id, b.session_id),
        OrderColumn::Latency => opt_i64_lt(a.latency, b.latency),
        OrderColumn::TotalCost => opt_i64_lt(a.total_cost, b.total_cost),
    }
}

/// The stable total order the sort uses on row indices: the column order in
/// the requested direction, ties resolved by store position.
pub open spec fn comes_before(
    rows: Seq<TraceRowData>,
    c: OrderColumn,
    desc: bool,
    a: int,
    b: int,
) -> bool {
    let lt = if desc {
        col_lt(c, rows[b], rows[a])
    } else {
        col_lt(c, rows[a], rows[b])
    };
    let gt = if desc {
        col_lt(c, rows[a], rows[b])
    } else {
        col_lt(c, rows[b], rows[a])
    };
    lt || (!gt && a <= b)
}

fn lex_lt_exec(a: &str, b: &str) -> (r: bool)
    ensures
        r == lex_lt(a@, b@),
{
    let va = str_chars(a);
    let vb = str_chars(b);
    let na = va.len();
    let nb = vb.len();
    proof {
        assert(va@.skip(0) =~= va@);
        assert(vb@.skip(0) =~= vb@);
    }
    let mut i: usize = 0;
    while i < na && i < nb
        invariant
            0 <= i,
            i <= na,
            i <= nb,
            na == va@.len(),
            nb == vb@.len(),
            va@ == a@,
            vb@ == b@,
            lex_lt(a@, b@) == lex_lt(va@.skip(i as int), vb@.skip(i as int)),
        decreases na - i,
    {
        proof {
            assert(va@.skip(i as int).first() == va@[i as int]);
            assert(vb@.skip(i as int).first() == vb@[i as int]);
            assert(va@.skip(i as int).drop_first() =~= va@.skip(i + 1));
            assert(vb@.skip(i as int).drop_first() =~= vb@.skip(i + 1));
        }
        if va[i] < vb[i] {
            return true;
        }
        if vb[i] < va[i] {
            return false;
        }
        i = i + 1;
    }
    proof {
        if i >= na {
            assert(va@.skip(i as int).len() == 0);
        } else {
            assert(vb@.skip(i as int).len() == 0);
        }
    }
    i >= na && i < nb
}

fn opt_text_lt_exec(a: &Option<String>, b: &Option<String>) -> (r: bool)
    ensures
        r == opt_text_lt(view_opt_str(*a), view_opt_str(*b)),
{
    match (a, b) {
        (Some(x), Some(y)) => lex_lt_exec(x.as_str(), y.as_str()),
        (Some(_), None) => true,
        (None, _) => false,
    }
}

fn opt_i64_lt_exec(a: &Option<i64>, b: &Option<i64>) -> (r: bool)
    ensures
        r == opt_i64_lt(*a, *b),
{
    match (a, b) {
        (Some(x), Some(y)) => *x < *y,
        (Some(_), None) => true,
        (None, _) => false,
    }
}

fn col_lt_exec(c: OrderColumn, a: &TraceRow, b: &TraceRow) -> (r: bool)
    ensures
        r == col_lt(c, a@, b@),
{
    match c {
        OrderColumn::Id => a.id.value < b.id.value,
        OrderColumn::Timestamp => ts_before(a.timestamp, b.timestamp),
        OrderColumn::Name => opt_text_lt_exec(&a.name, &b.name),
        OrderColumn::UserId => opt_text_lt_exec(&a.user_id, &b.user_id),
        OrderColumn::Release => opt_text_lt_exec(&a.release, &b.release),
        OrderColumn::Version => opt_text_lt_exec(&a.version, &b.version),
        OrderColumn::Public => !a.public && b.public,
        OrderColumn::Bookmarked => !a.bookmarked && b.bookmarked,
        OrderColumn::SessionId => opt_text_lt_exec(&a.session_id, &b.session_id),
        OrderColumn::Latency => opt_i64_lt_exec(&a.latency, &b.latency),
        OrderColumn::TotalCost => opt_i64_lt_exec(&a.total_cost, &b.total_cost),
    }
}

fn comes_before_exec(
    store: &Store,
    c: OrderColumn,
    desc: bool,
    a: usize,
    b: usize,
) -> (r: bool)
    requires
        a < store.traces@.len(),
        b < store.traces@.len(),
    ensures
        r == comes_before(store@.traces, c, desc, a as int, b as int),
{
    let lt = if desc {
        col_lt_exec(c, &store.traces[b], &store.traces[a])
    } else {
        col_lt_exec(c, &store.traces[a], &store.traces[b])
    };
    let gt = if desc {
        col_lt_exec(c, &store.traces[a], &store.traces[b])
    } else {
        col_lt_exec(c, &store.traces[b], &store.traces[a])
    };
    lt || (!gt && a <= b)
}

/// Insertion of an index into a sorted run: before the first entry it
/// precedes.
pub open spec fn insert_sorted(
    x: int,
    s: Seq<int>,
    rows: Seq<TraceRowData>,
    c: OrderColumn,
    desc: bool,
) -> Seq<int>
    decreases s.len(),
{
    if s.len() == 0 {
        seq![x]
    } else if comes_before(rows, c, desc, x, s.first()) {
        seq![x] + s
    } else {
        seq![s.first()] + insert_sorted(x, s.drop_first(), rows, c, desc)
    }
}

/// Insertion sort of row indices under the stable order, left to right.
pub open spec fn sort_from(
    acc: Seq<int>,
    s: Seq<int>,
    rows: Seq<TraceRowData>,
    c: OrderColumn,
    desc: bool,
) -> Seq<int>
    decreases s.len(),
{
    if s.len() == 0 {
        acc
    } else {
        sort_from(insert_sorted(s.first(), acc, rows, c, desc), s.drop_first(), rows, c, desc)
    }
}

/// The filtered row indices in the requested order: the deterministic stable
/// sort of the filtered indices.
pub open spec fn ordered_indices(
    rows: Seq<TraceRowData>,
    q: TraceListQueryData,
    d: Seq<char>,
    c: OrderColumn,
    desc: bool,
) -> Seq<int> {
    sort_from(Seq::empty(), filtered_from(rows, q, d, 0), rows, c, desc)
}

proof fn lemma_insert_sorted_at(
    x: int,
    s: Seq<int>,
    rows: Seq<TraceRowData>,
    c: OrderColumn,
    desc: bool,
    p: int,
)
    requires
        0 <= p <= s.len(),
        forall|j: int| 0 <= j < p ==> !comes_before(rows, c, desc, x, #[trigger] s[j]),
        p < s.len() ==> comes_before(rows, c, desc, x, s[p]),
    ensures
        insert_sorted(x, s, rows, c, desc) == s.take(p) + seq![x] + s.skip(p),
    decreases p,
{
    if s.len() == 0 {
        assert(insert_sorted(x, s, rows, c, desc) =~= s.take(p) + seq![x] + s.skip(p));
    } else if p == 0 {
        assert(insert_sorted(x, s, rows, c, desc) =~= s.take(0) + seq![x] + s.skip(0));
    } else {
        lemma_insert_sorted_at(x, s.drop_first(), rows, c, desc, p - 1);
        assert(s.drop_first().take(p - 1) =~= s.take(p).drop_first());
        assert(s.drop_first().skip(p - 1) =~= s.skip(p));
        assert(insert_sorted(x, s, rows, c, desc) =~= s.take(p) + seq![x] + s.skip(p));
    }
}

fn insert_index(
    acc: &mut Vec<usize>,
    x: usize,
    store: &Store,
    c: OrderColumn,
    desc: bool,
)
    requires
        x < store.traces@.len(),
        forall|j: int| 0 <= j < old(acc)@.len() ==> (#[trigger] old(acc)@[j]) < store.traces@.len(),
    ensures
        idxs_view(final(acc)@) == insert_sorted(
            x as int,
            idxs_view(old(acc)@),
            store@.traces,
            c,
            desc,
        ),
        forall|j: int| 0 <= j < final(acc)@.len() ==> (#[trigger] final(acc)@[j]) < store.traces@.len(),
{
    let ghost s0 = idxs_view(acc@);
    let n = acc.len();
    let mut p: usize = 0;
    while p < n
        invariant
            0 <= p <= n,
            n == acc@.len(),
            acc@ == old(acc)@,
            s0 == idxs_view(acc@),
            x < store.traces@.len(),
            forall|j: int| 0 <= j < acc@.len() ==> (#[trigger] acc@[j]) < store.traces@.len(),
            forall|j: int|
                0 <= j < p ==> !comes_before(store@.traces, c, desc, x as int, #[trigger] s0[j]),
        decreases n - p,
    {
        if comes_before_exec(store, c, desc, x, acc[p]) {
            proof {
                lemma_insert_sorted_at(x as int, s0, store@.traces, c, desc, p as int);
            }
            acc.insert(p, x);
            proof {
                assert(idxs_view(acc@) =~= s0.take(p as int) + seq![x as int] + s0.skip(p as int));
            }
            return;
        }
        p = p + 1;
    }
    proof {
        lemma_insert_sorted_at(x as int, s0, store@.traces, c, desc, n as int);
    }
    acc.insert(n, x);
    proof {
        assert(idxs_view(acc@) =~= s0.take(n as int) + seq![x as int] + s0.skip(n as int));
    }
}

// --- result rows ---------------------------------------------------------------

/// The masked-metrics sentinel: the fixed-point encoding of -1.0.
pub const MASKED_METRIC: i64 = -1_000_000;

/// The identifiers of a trace's observations, in store order, as canonical
/// hyphenated text.
pub open spec fn obs_ids_of(obs: Seq<ObservationRowData>, tid: UuidVal) -> Seq<Seq<char>>
    decreases obs.len(),
{
    if obs.len() == 0 {
        Seq::empty()
    } else {
        let rest = obs_ids_of(obs.drop_first(), tid);
        if obs.first().trace_id == tid {
            seq![uuid_string_of(obs.first().id.value)] + rest
        } else {
            rest
        }
    }
}

/// The path under which a trace is shown.
pub open spec fn html_path_of(project_id: Seq<char>, id: UuidVal) -> Seq<char> {
    "/project/"@ + project_id + "/traces/"@ + uuid_string_of(id.value)
}

/// A JSON value, with null for absent.
pub open spec fn json_or_null(v: Option<JsonData>) -> JsonData {
    match v {
        Some(x) => x,
        None => JsonData::Null,
    }
}

/// The list row a stored trace produces under a field mask: `io` off omits
/// input, output and metadata; `metrics` off serializes latency and total
/// cost as the -1.0 sentinel; `observations` off empties the id list; scores
/// are always empty.
pub open spec fn spec_list_item(
    r: TraceRowData,
    mask: TraceFieldsMask,
    obs: Seq<ObservationRowData>,
) -> TraceListItemData {
    TraceListItemData {
        id: r.id,
        timestamp: r.timestamp,
        name: r.name,
        input: if mask.io {
            Some(json_or_null(r.input))
        } else {
            None
        },
        output: if mask.io {
            Some(json_or_null(r.output))
        } else {
            None
        },
        session_id: r.session_id,
        release: r.release,
        version: r.version,
        user_id: r.user_id,
        metadata: if mask.io {
            Some(json_or_null(r.metadata))
        } else {
            None
        },
        tags: r.tags,
        public: r.public,
        environment: r.environment,
        html_path: html_path_of(r.project_id, r.id),
        latency: if mask.metrics {
            r.latency
        } else {
            Some(MASKED_METRIC)
        },
        total_cost: if mask.metrics {
            r.total_cost
        } else {
            Some(MASKED_METRIC)
        },
        observations: if mask.observations {
            obs_ids_of(obs, r.id)
        } else {
            Seq::empty()
        },
        scores: Seq::empty(),
    }
}

/// Law, field-mask contract on rows: a mask without `io` omits input, output
/// and metadata; one without `metrics` writes the -1.0 sentinel for latency
/// and total cost; one without `observations` empties the id list.
pub proof fn lemma_list_item_mask(
    r: TraceRowData,
    mask: TraceFieldsMask,
    obs: Seq<ObservationRowData>,
)
    ensures
        !mask.io ==> spec_list_item(r, mask, obs).input is None && spec_list_item(
            r,
            mask,
            obs,
        ).output is None && spec_list_item(r, mask, obs).metadata is None,
        !mask.metrics ==> spec_list_item(r, mask, obs).latency == Some(MASKED_METRIC)
            && spec_list_item(r, mask, obs).total_cost == Some(MASKED_METRIC),
        !mask.observations ==> spec_list_item(r, mask, obs).observations == Seq::<Seq<char>>::empty(),
        spec_list_item(r, mask, obs).scores == Seq::<Seq<char>>::empty(),
{
}

fn json_field(v: &Option<JsonVal>, keep: bool) -> (r: Option<JsonVal>)
    ensures
        view_opt_json(&r) == (if keep {
            Some(json_or_null(view_opt_json(v)))
        } else {
            None::<JsonData>
        }),
{
    if keep {
        match v {
            Some(x) => Some(x.clone()),
            None => Some(JsonVal::Null),
        }
    } else {
        None
    }
}

proof fn lemma_filtered_from_len(
    rows: Seq<TraceRowData>,
    q: TraceListQueryData,
    d: Seq<char>,
    i: int,
)
    requires
        0 <= i <= rows.len(),
    ensures
        filtered_from(rows, q, d, i).len() <= rows.len() - i,
    decreases rows.len() - i,
{
    if i < rows.len() {
        lemma_filtered_from_len(rows, q, d, i + 1);
    }
}

fn collect_obs_ids(store: &Store, tid: UuidVal) -> (r: Vec<String>)
    ensures
        string_vec_view(r@) == obs_ids_of(store@.observations, tid),
{
    let ghost obs = store@.observations;
    let n = store.observations.len();
    let mut out: Vec<String> = Vec::new();
    let mut i: usize = 0;
    proof {
        assert(obs.skip(0) =~= obs);
        assert(string_vec_view(out@) + obs_ids_of(obs, tid) =~= obs_ids_of(obs, tid));
    }
    while i < n
        invariant
            0 <= i <= n,
            n == store.observations@.len(),
            obs == store@.observations,
            obs_ids_of(obs, tid) == string_vec_view(out@) + obs_ids_of(obs.skip(i as int), tid),
        decreases n - i,
    {
        proof {
            assert(obs.skip(i as int).first() == obs[i as int]);
            assert(obs.skip(i as int).drop_first() =~= obs.skip(i + 1));
        }
        if store.observations[i].trace_id == tid {
            let ghost v0 = string_vec_view(out@);
            let id_str = store.observations[i].id.hyphenated();
            out.push(id_str);
            proof {
                assert(string_vec_view(out@) =~= v0.push(uuid_string_of(obs[i as int].id.value)));
                assert(v0.push(uuid_string_of(obs[i as int].id.value)) + obs_ids_of(
                    obs.skip(i + 1),
                    tid,
                ) =~= v0 + (seq![uuid_string_of(obs[i as int].id.value)] + obs_ids_of(
                    obs.skip(i + 1),
                    tid,
                )));
            }
        }
        i = i + 1;
    }
    proof {
        assert(obs_ids_of(obs.skip(n as int), tid) =~= Seq::<Seq<char>>::empty());
        assert(string_vec_view(out@) + Seq::<Seq<char>>::empty() =~= string_vec_view(out@));
    }
    out
}

fn build_list_item(store: &Store, row: &TraceRow, mask: TraceFieldsMask) -> (r: TraceListItem)
    ensures
        r@ == spec_list_item(row@, mask, store@.observations),
{
    let observations: Vec<String> = if mask.observations {
        collect_obs_ids(store, row.id)
    } else {
        Vec::new()
    };
    let id_str = row.id.hyphenated();
    let mut html_path = "/project/".to_owned();
    html_path.append(row.project_id.as_str());
    html_path.append("/traces/");
    html_path.append(id_str.as_str());
    let item = TraceListItem {
        id: row.id,
        timestamp: row.timestamp,
        name: clone_opt_string(&row.name),
        input: json_field(&row.input, mask.io),
        output: json_field(&row.output, mask.io),
        session_id: clone_opt_string(&row.session_id),
        release: clone_opt_string(&row.release),
        version: clone_opt_string(&row.version),
        user_id: clone_opt_string(&row.user_id),
        metadata: json_field(&row.metadata, mask.io),
        tags: clone_vec_string(&row.tags),
        public: row.public,
        environment: row.environment.clone(),
        html_path: html_path,
        latency: if mask.metrics {
            row.latency
        } else {
            Some(MASKED_METRIC)
        },
        total_cost: if mask.metrics {
            row.total_cost
        } else {
            Some(MASKED_METRIC)
        },
        observations: observations,
        scores: Vec::new(),
    };
    proof {
        assert(string_vec_view(Seq::<String>::empty()) =~= Seq::<Seq<char>>::empty());
        assert(item@ =~= spec_list_item(row@, mask, store@.observations));
    }
    item
}

/// The trace-list query: filters the store's traces, orders them by the
/// whitelisted column with a stable tie on store position, slices the
/// requested page, and projects each row under the field mask. An `order_by`
/// outside the whitelist is a bad request.
pub fn get_traces(store: &Store, q: &TraceListQuery, default_project_id: &String) -> (r: Result<
    PagedData<TraceListItem>,
    ApiError,
>)
    requires
        store@.traces.len() <= 0x7fff_ffff_ffff_0000,
    ensures
        ({
            let rows = store@.traces;
            let page = spec_page_number(q@.page);
            let limit = spec_page_limit(q@.limit);
            let mask = spec_parse_trace_fields(q@.fields);
            match spec_parse_order_by(q@.order_by) {
                Some((c, desc)) => {
                    let filtered = filtered_from(rows, q@, default_project_id@, 0);
                    let ordered = ordered_indices(rows, q@, default_project_id@, c, desc);
                    let slice = spec_page_slice(ordered, page, limit);
                    match r {
                        Ok(p) => {
                            &&& p.meta.page == page
                            &&& p.meta.limit == limit
                            &&& p.meta.total_items == filtered.len()
                            &&& p.meta.total_pages == spec_total_pages(filtered.len() as int, limit)
                            &&& p.data@.len() == slice.len()
                            &&& forall|k: int|
                                0 <= k < slice.len() ==> (#[trigger] p.data@[k]@) == spec_list_item(
                                    rows[slice[k]],
                                    mask,
                                    store@.observations,
                                )
                        },
                        Err(_) => false,
                    }
                },
                None => r matches Err(e) && e matches ApiError::BadRequest(m) && m@
                    == "invalid order_by"@,
            }
        }),
{
    let order = match parse_order_by(match &q.order_by {
        Some(s) => Some(s.as_str()),
        None => None,
    }) {
        Ok(o) => o,
        Err(e) => {
            return Err(e);
        },
    };
    let (page, limit) = resolve_page(q.page, q.limit);
    let mask = parse_trace_fields(match &q.fields {
        Some(s) => Some(s.as_str()),
        None => None,
    });
    let filtered = filter_traces(store, q, default_project_id);
    let ghost rows = store@.traces;
    let ghost fidx = filtered_from(rows, q@, default_project_id@, 0);
    proof {
        lemma_filtered_from_len(rows, q@, default_project_id@, 0);
    }
    let total = filtered.len();
    let tp = total_pages(total as i64, limit);
    let mut ordered: Vec<usize> = Vec::new();
    let nf = filtered.len();
    let mut i: usize = 0;
    proof {
        assert(fidx.skip(0) =~= fidx);
        assert(idxs_view(ordered@) =~= Seq::<int>::empty());
    }
    while i < nf
        invariant
            0 <= i <= nf,
            nf == filtered@.len(),
            rows == store@.traces,
            fidx == idxs_view(filtered@),
            forall|j: int| 0 <= j < filtered@.len() ==> (#[trigger] filtered@[j]) < store.traces@.len(),
            forall|j: int| 0 <= j < ordered@.len() ==> (#[trigger] ordered@[j]) < store.traces@.len(),
            sort_from(Seq::empty(), fidx, rows, order.0, order.1) == sort_from(
                idxs_view(ordered@),
                fidx.skip(i as int),
                rows,
                order.0,
                order.1,
            ),
        decreases nf - i,
    {
        proof {
            assert(fidx.skip(i as int).first() == fidx[i as int]);
            assert(fidx.skip(i as int).drop_first() =~= fidx.skip(i + 1));
        }
        insert_index(&mut ordered, filtered[i], store, order.0, order.1);
        i = i + 1;
    }
    proof {
        assert(fidx.skip(nf as int) =~= Seq::<int>::empty());
    }
    let ghost osorted = ordered_indices(rows, q@, default_project_id@, order.0, order.1);
    let no = ordered.len();
    proof {
        assert((page as i128 - 1) * (limit as i128) == (page as int - 1) * (limit as int)
            && 0 <= (page as int - 1) * (limit as int) <= 0x7fff_ffff_ffff_ffff * 200)
            by (nonlinear_arith)
            requires
                1 <= page <= 0x7fff_ffff_ffff_ffff,
                1 <= limit <= 200,
        ;
    }
    let off128: i128 = (page as i128 - 1) * (limit as i128);
    let ghost off_int = (page as int - 1) * (limit as int);
    proof {
        assert(off128 == off_int);
    }
    let mut out: Vec<TraceListItem> = Vec::new();
    let ghost slice = spec_page_slice(osorted, page as int, limit as int);
    if off128 < no as i128 {
        let off: usize = off128 as usize;
        let upper: usize = if no - off < limit as usize {
            no
        } else {
            off + limit as usize
        };
        proof {
            if off + limit <= no {
                assert(slice =~= osorted.subrange(off as int, off + limit));
            } else {
                assert(slice =~= osorted.subrange(off as int, no as int));
            }
        }
        let mut k: usize = off;
        while k < upper
            invariant
                off <= k <= upper <= no,
                no == ordered@.len(),
                rows == store@.traces,
                osorted == idxs_view(ordered@),
                slice == osorted.subrange(off as int, upper as int),
                forall|j: int| 0 <= j < ordered@.len() ==> (#[trigger] ordered@[j]) < store.traces@.len(),
                out@.len() == k - off,
                mask == spec_parse_trace_fields(q@.fields),
                forall|j: int|
                    0 <= j < out@.len() ==> (#[trigger] out@[j]@) == spec_list_item(
                        rows[slice[j]],
                        mask,
                        store@.observations,
                    ),
            decreases upper - k,
        {
            let idx = ordered[k];
            let item = build_list_item(store, &store.traces[idx], mask);
            out.push(item);
            k = k + 1;
        }
    } else {
        proof {
            assert(slice =~= Seq::<int>::empty());
        }
    }
    Ok(
        PagedData {
            data: out,
            meta: PageMeta { page, limit, total_items: total as i64, total_pages: tp },
        },
    )
}

// --- the sort is a permutation ----------------------------------------------

proof fn lemma_insert_sorted_multiset(
    x: int,
    s: Seq<int>,
    rows: Seq<TraceRowData>,
    c: OrderColumn,
    desc: bool,
)
    ensures
        insert_sorted(x, s, rows, c, desc).to_multiset() == s.to_multiset().insert(x),
    decreases s.len(),
{
    broadcast use vstd::seq_lib::group_to_multiset_ensures;

    if s.len() == 0 {
        assert(insert_sorted(x, s, rows, c, desc) =~= Seq::<int>::empty().push(x));
        assert(insert_sorted(x, s, rows, c, desc).to_multiset() =~= s.to_multiset().insert(x));
    } else if comes_before(rows, c, desc, x, s.first()) {
        vstd::seq_lib::to_multiset_insert(s, 0, x);
        assert(s.insert(0, x) =~= seq![x] + s);
    } else {
        lemma_insert_sorted_multiset(x, s.drop_first(), rows, c, desc);
        let rest = insert_sorted(x, s.drop_first(), rows, c, desc);
        vstd::seq_lib::to_multiset_insert(rest, 0, s.first());
        assert(rest.insert(0, s.first()) =~= seq![s.first()] + rest);
        vstd::seq_lib::to_multiset_insert(s.drop_first(), 0, s.first());
        assert(s.drop_first().insert(0, s.first()) =~= s);
        assert(insert_sorted(x, s, rows, c, desc).to_multiset() =~= s.to_multiset().insert(x));
    }
}

proof fn lemma_sort_from_multiset(
    acc: Seq<int>,
    s: Seq<int>,
    rows: Seq<TraceRowData>,
    c: OrderColumn,
    desc: bool,
)
    ensures
        sort_from(acc, s, rows, c, desc).to_multiset() == acc.to_multiset().add(s.to_multiset()),
    decreases s.len(),
{
    broadcast use vstd::seq_lib::group_to_multiset_ensures;

    if s.len() == 0 {
        assert(sort_from(acc, s, rows, c, desc).to_multiset() =~= acc.to_multiset().add(
            s.to_multiset(),
        ));
    } else {
        lemma_insert_sorted_multiset(s.first(), acc, rows, c, desc);
        lemma_sort_from_multiset(
            insert_sorted(s.first(), acc, rows, c, desc),
            s.drop_first(),
            rows,
            c,
            desc,
        );
        vstd::seq_lib::to_multiset_insert(s.drop_first(), 0, s.first());
        assert(s.drop_first().insert(0, s.first()) =~= s);
        assert(sort_from(acc, s, rows, c, desc).to_multiset() =~= acc.to_multiset().add(
            s.to_multiset(),
        ));
    }
}

/// The filtered indices grow strictly, so the filtered list holds no
/// duplicates.
proof fn lemma_filtered_from_lower_bound(
    rows: Seq<TraceRowData>,
    q: TraceListQueryData,
    d: Seq<char>,
    i: int,
)
    ensures
        forall|k: int|
            0 <= k < filtered_from(rows, q, d, i).len() ==> i <= #[trigger] filtered_from(
                rows,
                q,
                d,
                i,
            )[k] < rows.len(),
        forall|k1: int, k2: int|
            0 <= k1 < k2 < filtered_from(rows, q, d, i).len() ==> filtered_from(rows, q, d, i)[k1]
                < filtered_from(rows, q, d, i)[k2],
    decreases rows.len() - i,
{
    if 0 <= i < rows.len() {
        lemma_filtered_from_lower_bound(rows, q, d, i + 1);
        let f = filtered_from(rows, q, d, i);
        let rest = filtered_from(rows, q, d, i + 1);
        if trace_matches(rows[i], q, d) {
            assert(f == seq![i] + rest);
            assert forall|k: int| 0 <= k < f.len() implies i <= #[trigger] f[k] < rows.len() by {
                if k > 0 {
                    assert(f[k] == rest[k - 1]);
                }
            }
            assert forall|k1: int, k2: int| 0 <= k1 < k2 < f.len() implies f[k1] < f[k2] by {
                assert(f[k2] == rest[k2 - 1]);
                if k1 > 0 {
                    assert(f[k1] == rest[k1 - 1]);
                }
            }
        }
    }
}

/// Law: the ordered index list the trace-list query pages over is a
/// permutation of the filtered index list — the same rows, each exactly once;
/// with the page-concatenation law, the concatenated pages are a prefix of
/// the full filtered set with no duplicates.
pub proof fn lemma_ordered_is_permutation(
    rows: Seq<TraceRowData>,
    q: TraceListQueryData,
    d: Seq<char>,
    c: OrderColumn,
    desc: bool,
)
    ensures
        ordered_indices(rows, q, d, c, desc).to_multiset() == filtered_from(
            rows,
            q,
            d,
            0,
        ).to_multiset(),
        forall|k1: int, k2: int|
            0 <= k1 < k2 < ordered_indices(rows, q, d, c, desc).len() ==> ordered_indices(
                rows,
                q,
                d,
                c,
                desc,
            )[k1] != ordered_indices(rows, q, d, c, desc)[k2],
{
    broadcast use vstd::seq_lib::group_to_multiset_ensures;

    let f = filtered_from(rows, q, d, 0);
    let o = ordered_indices(rows, q, d, c, desc);
    lemma_sort_from_multiset(Seq::empty(), f, rows, c, desc);
    assert(o.to_multiset() =~= f.to_multiset());
    lemma_filtered_from_lower_bound(rows, q, d, 0);
    assert forall|k1: int, k2: int| 0 <= k1 < k2 < f.len() implies f[k1] != f[k2] by {}
    f.lemma_multiset_has_no_duplicates();
    o.lemma_multiset_has_no_duplicates_conv();
}

// --- the sort really sorts ----------------------------------------------------

proof fn lemma_lex_trichotomy(a: Seq<char>, b: Seq<char>)
    requires
        !lex_lt(a, b),
        !lex_lt(b, a),
    ensures
        a == b,
    decreases a.len(),
{
    if b.len() == 0 {
        assert(a.len() == 0);
        assert(a =~= b);
    } else {
        assert(a.len() > 0);
        assert(a.first() == b.first());
        lemma_lex_trichotomy(a.drop_first(), b.drop_first());
        assert forall|i: int| 0 <= i < a.len() implies a[i] == b[i] by {
            if i > 0 {
                assert(a[i] == a.drop_first()[i - 1]);
                assert(b[i] == b.drop_first()[i - 1]);
            }
        }
        assert(a =~= b);
    }
}

proof fn lemma_lex_transitive(a: Seq<char>, b: Seq<char>, c: Seq<char>)
    requires
        lex_lt(a, b),
        lex_lt(b, c),
    ensures
        lex_lt(a, c),
    decreases a.len(),
{
    if a.len() == 0 {
        assert(c.len() > 0);
    } else {
        assert(b.len() > 0 && c.len() > 0);
        if a.first() == b.first() && b.first() == c.first() {
            lemma_lex_transitive(a.drop_first(), b.drop_first(), c.drop_first());
        }
    }
}

/// Each column order is a strict weak order: transitive, and rows neither
/// order puts apart are interchangeable.
proof fn lemma_col_order(c: OrderColumn, x: TraceRowData, y: TraceRowData, z: TraceRowData)
    ensures
        col_lt(c, x, y) && col_lt(c, y, z) ==> col_lt(c, x, z),
        (!col_lt(c, x, y) && !col_lt(c, y, x)) ==> (col_lt(c, x, z) == col_lt(c, y, z)
            && col_lt(c, z, x) == col_lt(c, z, y)),
{
    match c {
        OrderColumn::Name => {
            lemma_opt_text_order(x.name, y.name, z.name);
        },
        OrderColumn::UserId => {
            lemma_opt_text_order(x.user_id, y.user_id, z.user_id);
        },
        OrderColumn::Release => {
            lemma_opt_text_order(x.release, y.release, z.release);
        },
        OrderColumn::Version => {
            lemma_opt_text_order(x.version, y.version, z.version);
        },
        OrderColumn::SessionId => {
            lemma_opt_text_order(x.session_id, y.session_id, z.session_id);
        },
        _ => {},
    }
}

proof fn lemma_opt_text_order(a: Option<Seq<char>>, b: Option<Seq<char>>, c: Option<Seq<char>>)
    ensures
        opt_text_lt(a, b) && opt_text_lt(b, c) ==> opt_text_lt(a, c),
        (!opt_text_lt(a, b) && !opt_text_lt(b, a)) ==> (opt_text_lt(a, c) == opt_text_lt(b, c)
            && opt_text_lt(c, a) == opt_text_lt(c, b)),
{
    if opt_text_lt(a, b) && opt_text_lt(b, c) {
        match (a, b, c) {
            (Some(xa), Some(xb), Some(xc)) => {
                lemma_lex_transitive(xa, xb, xc);
            },
            _ => {},
        }
    }
    if !opt_text_lt(a, b) && !opt_text_lt(b, a) {
        match (a, b) {
            (Some(xa), Some(xb)) => {
                lemma_lex_trichotomy(xa, xb);
            },
            _ => {},
        }
    }
}

/// The stable row order is transitive.
proof fn lemma_comes_before_transitive(
    rows: Seq<TraceRowData>,
    c: OrderColumn,
    desc: bool,
    a: int,
    b: int,
    d2: int,
)
    requires
        comes_before(rows, c, desc, a, b),
        comes_before(rows, c, desc, b, d2),
    ensures
        comes_before(rows, c, desc, a, d2),
{
    if desc {
        lemma_col_order(c, rows[d2], rows[b], rows[a]);
        lemma_col_order(c, rows[b], rows[a], rows[d2]);
        lemma_col_order(c, rows[b], rows[d2], rows[a]);
        lemma_col_order(c, rows[a], rows[b], rows[d2]);
    } else {
        lemma_col_order(c, rows[a], rows[b], rows[d2]);
        lemma_col_order(c, rows[b], rows[a], rows[d2]);
        lemma_col_order(c, rows[b], rows[d2], rows[a]);
        lemma_col_order(c, rows[d2], rows[b], rows[a]);
    }
}

/// An index list ordered throughout by the stable row order.
pub open spec fn indices_sorted(
    s: Seq<int>,
    rows: Seq<TraceRowData>,
    c: OrderColumn,
    desc: bool,
) -> bool {
    forall|k1: int, k2: int|
        0 <= k1 < k2 < s.len() ==> comes_before(rows, c, desc, #[trigger] s[k1], #[trigger] s[k2])
}

proof fn lemma_insert_sorted_stays_sorted(
    x: int,
    s: Seq<int>,
    rows: Seq<TraceRowData>,
    c: OrderColumn,
    desc: bool,
)
    requires
        indices_sorted(s, rows, c, desc),
    ensures
        indices_sorted(insert_sorted(x, s, rows, c, desc), rows, c, desc),
    decreases s.len(),
{
    broadcast use vstd::seq_lib::group_to_multiset_ensures;

    let r = insert_sorted(x, s, rows, c, desc);
    if s.len() == 0 {
    } else if comes_before(rows, c, desc, x, s.first()) {
        assert(r == seq![x] + s);
        assert forall|k1: int, k2: int|
            0 <= k1 < k2 < r.len() implies comes_before(
            rows,
            c,
            desc,
            #[trigger] r[k1],
            #[trigger] r[k2],
        ) by {
            if k1 == 0 {
                assert(r[k2] == s[k2 - 1]);
                if k2 > 1 {
                    lemma_comes_before_transitive(rows, c, desc, x, s[0], s[k2 - 1]);
                }
            } else {
                assert(r[k1] == s[k1 - 1]);
                assert(r[k2] == s[k2 - 1]);
            }
        }
    } else {
        assert(indices_sorted(s.drop_first(), rows, c, desc)) by {
            assert(forall|k1: int, k2: int|
                0 <= k1 < k2 < s.drop_first().len() ==> comes_before(
                    rows,
                    c,
                    desc,
                    #[trigger] s.drop_first()[k1],
                    #[trigger] s.drop_first()[k2],
                ));
        }
        lemma_insert_sorted_stays_sorted(x, s.drop_first(), rows, c, desc);
        lemma_insert_sorted_multiset(x, s.drop_first(), rows, c, desc);
        let rest = insert_sorted(x, s.drop_first(), rows, c, desc);
        assert(r == seq![s.first()] + rest);
        // the order is total: not coming before means coming after
        assert(comes_before(rows, c, desc, s.first(), x));
        assert forall|k1: int, k2: int|
            0 <= k1 < k2 < r.len() implies comes_before(
            rows,
            c,
            desc,
            #[trigger] r[k1],
            #[trigger] r[k2],
        ) by {
            if k1 == 0 {
                let e = rest[k2 - 1];
                assert(r[k2] == e);
                assert(rest.to_multiset().count(e) > 0);
                if e == x {
                } else {
                    assert(s.drop_first().to_multiset().count(e) > 0);
                    assert(s.drop_first().contains(e));
                    let w = choose|w: int|
                        0 <= w < s.drop_first().len() && s.drop_first()[w] == e;
                    assert(s[w + 1] == e);
                    assert(comes_before(rows, c, desc, s[0], s[w + 1]));
                }
            } else {
                assert(r[k1] == rest[k1 - 1]);
                assert(r[k2] == rest[k2 - 1]);
            }
        }
    }
}

proof fn lemma_sort_from_stays_sorted(
    acc: Seq<int>,
    s: Seq<int>,
    rows: Seq<TraceRowData>,
    c: OrderColumn,
    desc: bool,
)
    requires
        indices_sorted(acc, rows, c, desc),
    ensures
        indices_sorted(sort_from(acc, s, rows, c, desc), rows, c, desc),
    decreases s.len(),
{
    if s.len() > 0 {
        lemma_insert_sorted_stays_sorted(s.first(), acc, rows, c, desc);
        lemma_sort_from_stays_sorted(
            insert_sorted(s.first(), acc, rows, c, desc),
            s.drop_first(),
            rows,
            c,
            desc,
        );
    }
}

/// Law: the index list the trace-list query pages over is sorted throughout
/// by the requested column in the requested direction, ties resolved by store
/// position.
pub proof fn lemma_ordered_is_sorted(
    rows: Seq<TraceRowData>,
    q: TraceListQueryData,
    d: Seq<char>,
    c: OrderColumn,
    desc: bool,
)
    ensures
        indices_sorted(ordered_indices(rows, q, d, c, desc), rows, c, desc),
{
    lemma_sort_from_stays_sorted(Seq::empty(), filtered_from(rows, q, d, 0), rows, c, desc);
}

// --- the trace-detail view ---------------------------------------------------

/// Aggregated usage of one observation: token counts with zero substitutions, unit and calculated costs passed through.
pub struct PublicUsage {
    pub input: i64,
    pub output: i64,
    pub total: i64,
    pub unit: Option<String>,
    pub input_cost: Option<i64>,
    pub output_cost: Option<i64>,
    pub total_cost: Option<i64>,
}

/// The mathematical value of a [`PublicUsage`].
#[verifier::ext_equal]
pub struct PublicUsageData {
    pub input: i64,
    pub output: i64,
    pub total: i64,
    pub unit: Option<Seq<char>>,
    pub input_cost: Option<i64>,
    pub output_cost: Option<i64>,
    pub total_cost: Option<i64>,
}

impl View for PublicUsage {
    type V = PublicUsageData;

    open spec fn view(&self) -> PublicUsageData {
        PublicUsageData {
            input: self.input,
            output: self.output,
            total: self.total,
            unit: view_opt_str(self.unit),
            input_cost: self.input_cost,
            output_cost: self.output_cost,
            total_cost: self.total_cost,
        }
    }
}

/// One observation of a trace-detail response. The wire objects `usage_details` and `cost_details` of shape `{input, output, total}` are formed at the edge from the token and calculated-cost fields here, with zero substitutions.
pub struct ObservationView {
    pub id: UuidVal,
    pub trace_id: Option<UuidVal>,
    pub obs_type: String,
    pub name: Option<String>,
    pub start_time: Timestamp,
    pub end_time: Option<Timestamp>,
    pub completion_start_time: Option<Timestamp>,
    pub model: Option<String>,
    pub model_parameters: JsonVal,
    pub input: JsonVal,
    pub version: Option<String>,
    pub metadata: JsonVal,
    pub output: JsonVal,
    pub usage: PublicUsage,
    pub level: String,
    pub status_message: Option<String>,
    pub parent_observation_id: Option<UuidVal>,
    pub prompt_id: Option<String>,
    pub prompt_name: Option<String>,
    pub prompt_version: Option<i64>,
    pub model_id: Option<String>,
    pub input_price: Option<i64>,
    pub output_price: Option<i64>,
    pub total_price: Option<i64>,
    pub calculated_input_cost: Option<i64>,
    pub calculated_output_cost: Option<i64>,
    pub calculated_total_cost: Option<i64>,
    pub latency: Option<i64>,
    pub time_to_first_token: Option<i64>,
    pub prompt_tokens: i64,
    pub completion_tokens: i64,
    pub total_tokens: i64,
    pub environment: String,
}

/// The mathematical value of a [`ObservationView`].
#[verifier::ext_equal]
pub struct ObservationViewData {
    pub id: UuidVal,
    pub trace_id: Option<UuidVal>,
    pub obs_type: Seq<char>,
    pub name: Option<Seq<char>>,
    pub start_time: Timestamp,
    pub end_time: Option<Timestamp>,
    pub completion_start_time: Option<Timestamp>,
    pub model: Option<Seq<char>>,
    pub model_parameters: JsonData,
    pub input: JsonData,
    pub version: Option<Seq<char>>,
    pub metadata: JsonData,
    pub output: JsonData,
    pub usage: PublicUsageData,
    pub level: Seq<char>,
    pub status_message: Option<Seq<char>>,
    pub parent_observation_id: Option<UuidVal>,
    pub prompt_id: Option<Seq<char>>,
    pub prompt_name: Option<Seq<char>>,
    pub prompt_version: Option<i64>,
    pub model_id: Option<Seq<char>>,
    pub input_price: Option<i64>,
    pub output_price: Option<i64>,
    pub total_price: Option<i64>,
    pub calculated_input_cost: Option<i64>,
    pub calculated_output_cost: Option<i64>,
    pub calculated_total_cost: Option<i64>,
    pub latency: Option<i64>,
    pub time_to_first_token: Option<i64>,
    pub prompt_tokens: i64,
    pub completion_tokens: i64,
    pub total_tokens: i64,
    pub environment: Seq<char>,
}

impl View for ObservationView {
    type V = ObservationViewData;

    open spec fn view(&self) -> ObservationViewData {
        ObservationViewData {
            id: self.id,
            trace_id: self.trace_id,
            obs_type: self.obs_type@,
            name: view_opt_str(self.name),
            start_time: self.start_time,
            end_time: self.end_time,
            completion_start_time: self.completion_start_time,
            model: view_opt_str(self.model),
            model_parameters: self.model_parameters@,
            input: self.input@,
            version: view_opt_str(self.version),
            metadata: self.metadata@,
            output: self.output@,
            usage: self.usage@,
            level: self.level@,
            status_message: view_opt_str(self.status_message),
            parent_observation_id: self.parent_observation_id,
            prompt_id: view_opt_str(self.prompt_id),
            prompt_name: view_opt_str(self.prompt_name),
            prompt_version: self.prompt_version,
            model_id: view_opt_str(self.model_id),
            input_price: self.input_price,
            output_price: self.output_price,
            total_price: self.total_price,
            calculated_input_cost: self.calculated_input_cost,
            calculated_output_cost: self.calculated_output_cost,
            calculated_total_cost: self.calculated_total_cost,
            latency: self.latency,
            time_to_first_token: self.time_to_first_token,
            prompt_tokens: self.prompt_tokens,
            completion_tokens: self.completion_tokens,
            total_tokens: self.total_tokens,
            environment: self.environment@,
        }
    }
}

/// A trace-detail response: the trace columns and its observations in temporal order.
pub struct TraceDetail {
    pub id: UuidVal,
    pub timestamp: Timestamp,
    pub name: Option<String>,
    pub input: JsonVal,
    pub output: JsonVal,
    pub session_id: Option<String>,
    pub release: Option<String>,
    pub version: Option<String>,
    pub user_id: Option<String>,
    pub metadata: JsonVal,
    pub tags: Vec<String>,
    pub public: bool,
    pub environment: String,
    pub html_path: String,
    pub latency: Option<i64>,
    pub total_cost: Option<i64>,
    pub observations: Vec<ObservationView>,
    pub scores: Vec<String>,
}

/// The mathematical value of a [`TraceDetail`].
#[verifier::ext_equal]
pub struct TraceDetailData {
    pub id: UuidVal,
    pub timestamp: Timestamp,
    pub name: Option<Seq<char>>,
    pub input: JsonData,
    pub output: JsonData,
    pub session_id: Option<Seq<char>>,
    pub release: Option<Seq<char>>,
    pub version: Option<Seq<char>>,
    pub user_id: Option<Seq<char>>,
    pub metadata: JsonData,
    pub tags: Seq<Seq<char>>,
    pub public: bool,
    pub environment: Seq<char>,
    pub html_path: Seq<char>,
    pub latency: Option<i64>,
    pub total_cost: Option<i64>,
    pub observations: Seq<ObservationViewData>,
    pub scores: Seq<Seq<char>>,
}

impl View for TraceDetail {
    type V = TraceDetailData;

    open spec fn view(&self) -> TraceDetailData {
        TraceDetailData {
            id: self.id,
            timestamp: self.timestamp,
            name: view_opt_str(self.name),
            input: self.input@,
            output: self.output@,
            session_id: view_opt_str(self.session_id),
            release: view_opt_str(self.release),
            version: view_opt_str(self.version),
            user_id: view_opt_str(self.user_id),
            metadata: self.metadata@,
            tags: string_vec_view(self.tags@),
            public: self.public,
            environment: self.environment@,
            html_path: self.html_path@,
            latency: self.latency,
            total_cost: self.total_cost,
            observations: Seq::new(self.observations@.len(), |i: int| self.observations@[i]@),
            scores: string_vec_view(self.scores@),
        }
    }
}

/// Order on optional instants: an absent instant sorts last.
pub open spec fn opt_ts_lt(a: Option<Timestamp>, b: Option<Timestamp>) -> bool {
    match (a, b) {
        (Some(x), Some(y)) => ts_lt(x, y),
        (Some(_), None) => true,
        (None, _) => false,
    }
}

/// The temporal order of a detail view's observations: start time with
/// absent values last, then creation time.
pub open spec fn obs_lt(x: ObservationRowData, y: ObservationRowData) -> bool {
    opt_ts_lt(x.start_time, y.start_time) || (!opt_ts_lt(y.start_time, x.start_time) && ts_lt(
        x.created_at,
        y.created_at,
    ))
}

/// The stable total order on observation indices.
pub open spec fn obs_before(rows: Seq<ObservationRowData>, a: int, b: int) -> bool {
    obs_lt(rows[a], rows[b]) || (!obs_lt(rows[b], rows[a]) && a <= b)
}

/// The indices of a trace's observations, from `i` on, in store order.
pub open spec fn obs_of_trace_from(rows: Seq<ObservationRowData>, tid: UuidVal, i: int) -> Seq<
    int,
>
    decreases rows.len() - i,
{
    if i < 0 || i >= rows.len() {
        Seq::empty()
    } else if rows[i].trace_id == tid {
        seq![i] + obs_of_trace_from(rows, tid, i + 1)
    } else {
        obs_of_trace_from(rows, tid, i + 1)
    }
}

/// Insertion of an observation index into a sorted run.
pub open spec fn obs_insert_sorted(x: int, s: Seq<int>, rows: Seq<ObservationRowData>) -> Seq<int>
    decreases s.len(),
{
    if s.len() == 0 {
        seq![x]
    } else if obs_before(rows, x, s.first()) {
        seq![x] + s
    } else {
        seq![s.first()] + obs_insert_sorted(x, s.drop_first(), rows)
    }
}

/// Insertion sort of observation indices, left to right.
pub open spec fn obs_sort_from(acc: Seq<int>, s: Seq<int>, rows: Seq<ObservationRowData>) -> Seq<
    int,
>
    decreases s.len(),
{
    if s.len() == 0 {
        acc
    } else {
        obs_sort_from(obs_insert_sorted(s.first(), acc, rows), s.drop_first(), rows)
    }
}

/// A trace's observation indices, in temporal order.
pub open spec fn ordered_obs_indices(rows: Seq<ObservationRowData>, tid: UuidVal) -> Seq<int> {
    obs_sort_from(Seq::empty(), obs_of_trace_from(rows, tid, 0), rows)
}

/// The detail view of one observation: defaults applied (`DEFAULT` level,
/// empty parameter object, null input/output/metadata), token counts with
/// zero substitutions, the start time falling back to the creation time, and
/// the stored prompt version kept only when it reads as a signed integer.
pub open spec fn spec_observation_view(o: ObservationRowData) -> ObservationViewData {
    ObservationViewData {
        id: o.id,
        trace_id: Some(o.trace_id),
        obs_type: o.obs_type,
        name: o.name,
        start_time: crate::store::opt_ts_or(o.start_time, o.created_at),
        end_time: o.end_time,
        completion_start_time: o.completion_start_time,
        model: o.model,
        model_parameters: json_or_empty_obj(o.model_parameters),
        input: json_or_null(o.input),
        version: None,
        metadata: json_or_null(o.metadata),
        output: json_or_null(o.output),
        usage: PublicUsageData {
            input: opt_or_zero(o.prompt_tokens),
            output: opt_or_zero(o.completion_tokens),
            total: opt_or_zero(o.total_tokens),
            unit: o.unit,
            input_cost: o.calculated_input_cost,
            output_cost: o.calculated_output_cost,
            total_cost: o.calculated_total_cost,
        },
        level: opt_str_or(o.level, "DEFAULT"@),
        status_message: o.status_message,
        parent_observation_id: o.parent_observation_id,
        prompt_id: o.prompt_id,
        prompt_name: o.prompt_name,
        prompt_version: prompt_version_of(o.prompt_version),
        model_id: o.model_id,
        input_price: o.input_price,
        output_price: o.output_price,
        total_price: o.total_price,
        calculated_input_cost: o.calculated_input_cost,
        calculated_output_cost: o.calculated_output_cost,
        calculated_total_cost: o.calculated_total_cost,
        latency: o.latency,
        time_to_first_token: o.time_to_first_token,
        prompt_tokens: opt_or_zero(o.prompt_tokens),
        completion_tokens: opt_or_zero(o.completion_tokens),
        total_tokens: opt_or_zero(o.total_tokens),
        environment: o.environment,
    }
}

/// A stored JSON value, an empty object when absent.
pub open spec fn json_or_empty_obj(v: Option<JsonData>) -> JsonData {
    match v {
        Some(x) => x,
        None => JsonData::Obj(Seq::empty()),
    }
}

/// A count, zero when absent.
pub open spec fn opt_or_zero(v: Option<i64>) -> i64 {
    match v {
        Some(n) => n,
        None => 0,
    }
}

/// The prompt version a stored string denotes: kept when it reads as a
/// signed 64-bit integer.
pub open spec fn prompt_version_of(s: Option<Seq<char>>) -> Option<i64> {
    match s {
        Some(t) => {
            let lit = crate::codec::int_literal_value(t);
            if lit is Some && i64::MIN <= lit.unwrap() <= i64::MAX {
                Some(lit.unwrap() as i64)
            } else {
                None
            }
        },
        None => None,
    }
}

/// The detail view of a trace row.
pub open spec fn spec_trace_detail(
    r: TraceRowData,
    views: Seq<ObservationViewData>,
) -> TraceDetailData {
    TraceDetailData {
        id: r.id,
        timestamp: r.timestamp,
        name: r.name,
        input: json_or_null(r.input),
        output: json_or_null(r.output),
        session_id: r.session_id,
        release: r.release,
        version: r.version,
        user_id: r.user_id,
        metadata: json_or_null(r.metadata),
        tags: r.tags,
        public: r.public,
        environment: r.environment,
        html_path: html_path_of(r.project_id, r.id),
        latency: r.latency,
        total_cost: r.total_cost,
        observations: views,
        scores: Seq::empty(),
    }
}

fn clone_json_or_null(v: &Option<JsonVal>) -> (r: JsonVal)
    ensures
        r@ == json_or_null(view_opt_json(v)),
{
    match v {
        Some(x) => x.clone(),
        None => JsonVal::Null,
    }
}

fn opt_or_zero_exec(v: &Option<i64>) -> (r: i64)
    ensures
        r == opt_or_zero(*v),
{
    match v {
        Some(n) => *n,
        None => 0,
    }
}

/// Builds the detail view of one observation row.
fn build_observation_view(o: &crate::store::ObservationRow) -> (r: ObservationView)
    ensures
        r@ == spec_observation_view(o@),
{
    let prompt_version: Option<i64> = match &o.prompt_version {
        Some(t) => {
            let chars = str_chars(t.as_str());
            crate::codec::parse_i64_chars(&chars)
        },
        None => None,
    };
    let v = ObservationView {
        id: o.id,
        trace_id: Some(o.trace_id),
        obs_type: o.obs_type.clone(),
        name: clone_opt_string(&o.name),
        start_time: match o.start_time {
            Some(t) => t,
            None => o.created_at,
        },
        end_time: o.end_time,
        completion_start_time: o.completion_start_time,
        model: clone_opt_string(&o.model),
        model_parameters: match &o.model_parameters {
            Some(x) => x.clone(),
            None => JsonVal::empty_object(),
        },
        input: clone_json_or_null(&o.input),
        version: None,
        metadata: clone_json_or_null(&o.metadata),
        output: clone_json_or_null(&o.output),
        usage: PublicUsage {
            input: opt_or_zero_exec(&o.prompt_tokens),
            output: opt_or_zero_exec(&o.completion_tokens),
            total: opt_or_zero_exec(&o.total_tokens),
            unit: clone_opt_string(&o.unit),
            input_cost: o.calculated_input_cost,
            output_cost: o.calculated_output_cost,
            total_cost: o.calculated_total_cost,
        },
        level: match &o.level {
            Some(l) => l.clone(),
            None => "DEFAULT".to_owned(),
        },
        status_message: clone_opt_string(&o.status_message),
        parent_observation_id: o.parent_observation_id,
        prompt_id: clone_opt_string(&o.prompt_id),
        prompt_name: clone_opt_string(&o.prompt_name),
        prompt_version: prompt_version,
        model_id: clone_opt_string(&o.model_id),
        input_price: o.input_price,
        output_price: o.output_price,
        total_price: o.total_price,
        calculated_input_cost: o.calculated_input_cost,
        calculated_output_cost: o.calculated_output_cost,
        calculated_total_cost: o.calculated_total_cost,
        latency: o.latency,
        time_to_first_token: o.time_to_first_token,
        prompt_tokens: opt_or_zero_exec(&o.prompt_tokens),
        completion_tokens: opt_or_zero_exec(&o.completion_tokens),
        total_tokens: opt_or_zero_exec(&o.total_tokens),
        environment: o.environment.clone(),
    };
    proof {
        assert(v@ =~= spec_observation_view(o@));
    }
    v
}

proof fn lemma_obs_insert_sorted_at(x: int, s: Seq<int>, rows: Seq<ObservationRowData>, p: int)
    requires
        0 <= p <= s.len(),
        forall|j: int| 0 <= j < p ==> !obs_before(rows, x, #[trigger] s[j]),
        p < s.len() ==> obs_before(rows, x, s[p]),
    ensures
        obs_insert_sorted(x, s, rows) == s.take(p) + seq![x] + s.skip(p),
    decreases p,
{
    if s.len() == 0 {
        assert(obs_insert_sorted(x, s, rows) =~= s.take(p) + seq![x] + s.skip(p));
    } else if p == 0 {
        assert(obs_insert_sorted(x, s, rows) =~= s.take(0) + seq![x] + s.skip(0));
    } else {
        lemma_obs_insert_sorted_at(x, s.drop_first(), rows, p - 1);
        assert(s.drop_first().take(p - 1) =~= s.take(p).drop_first());
        assert(s.drop_first().skip(p - 1) =~= s.skip(p));
        assert(obs_insert_sorted(x, s, rows) =~= s.take(p) + seq![x] + s.skip(p));
    }
}

fn obs_before_exec(store: &Store, a: usize, b: usize) -> (r: bool)
    requires
        a < store.observations@.len(),
        b < store.observations@.len(),
    ensures
        r == obs_before(store@.observations, a as int, b as int),
{
    let x = &store.observations[a];
    let y = &store.observations[b];
    let lt_xy = opt_ts_lt_exec(&x.start_time, &y.start_time);
    let lt_yx = opt_ts_lt_exec(&y.start_time, &x.start_time);
    let xlty = lt_xy || (!lt_yx && ts_before(x.created_at, y.created_at));
    let yltx = lt_yx || (!lt_xy && ts_before(y.created_at, x.created_at));
    xlty || (!yltx && a <= b)
}

fn opt_ts_lt_exec(a: &Option<Timestamp>, b: &Option<Timestamp>) -> (r: bool)
    ensures
        r == opt_ts_lt(*a, *b),
{
    match (a, b) {
        (Some(x), Some(y)) => ts_before(*x, *y),
        (Some(_), None) => true,
        (None, _) => false,
    }
}

fn obs_insert_index(acc: &mut Vec<usize>, x: usize, store: &Store)
    requires
        x < store.observations@.len(),
        forall|j: int|
            0 <= j < old(acc)@.len() ==> (#[trigger] old(acc)@[j]) < store.observations@.len(),
    ensures
        idxs_view(final(acc)@) == obs_insert_sorted(
            x as int,
            idxs_view(old(acc)@),
            store@.observations,
        ),
        forall|j: int|
            0 <= j < final(acc)@.len() ==> (#[trigger] final(acc)@[j]) < store.observations@.len(),
{
    let ghost s0 = idxs_view(acc@);
    let n = acc.len();
    let mut p: usize = 0;
    while p < n
        invariant
            0 <= p <= n,
            n == acc@.len(),
            acc@ == old(acc)@,
            s0 == idxs_view(acc@),
            x < store.observations@.len(),
            forall|j: int| 0 <= j < acc@.len() ==> (#[trigger] acc@[j]) < store.observations@.len(),
            forall|j: int|
                0 <= j < p ==> !obs_before(store@.observations, x as int, #[trigger] s0[j]),
        decreases n - p,
    {
        if obs_before_exec(store, x, acc[p]) {
            proof {
                lemma_obs_insert_sorted_at(x as int, s0, store@.observations, p as int);
            }
            acc.insert(p, x);
            proof {
                assert(idxs_view(acc@) =~= s0.take(p as int) + seq![x as int] + s0.skip(p as int));
            }
            return;
        }
        p = p + 1;
    }
    proof {
        lemma_obs_insert_sorted_at(x as int, s0, store@.observations, n as int);
    }
    acc.insert(n, x);
    proof {
        assert(idxs_view(acc@) =~= s0.take(n as int) + seq![x as int] + s0.skip(n as int));
    }
}

/// The trace-detail query: the trace row under the identifier, absent as not
/// found, with its observations in temporal order (start time, absent last,
/// then creation time, then store position).
pub fn get_trace(store: &Store, trace_id: UuidVal) -> (r: Result<TraceDetail, ApiError>)
    ensures
        ({
            let rows = store@.traces;
            match crate::store::trace_row_of(rows, trace_id) {
                Some(t) => {
                    let ordered = ordered_obs_indices(store@.observations, trace_id);
                    match r {
                        Ok(d) => {
                            let views = Seq::new(
                                ordered.len(),
                                |k: int| spec_observation_view(store@.observations[ordered[k]]),
                            );
                            d@ == spec_trace_detail(t, views)
                        },
                        Err(_) => false,
                    }
                },
                None => r matches Err(e) && e is NotFound,
            }
        }),
{
    let row = match store.find_trace(trace_id) {
        Some(row) => row,
        None => {
            return Err(ApiError::NotFound);
        },
    };
    let ghost obs = store@.observations;
    let n = store.observations.len();
    let mut mine: Vec<usize> = Vec::new();
    let mut i: usize = 0;
    proof {
        assert(idxs_view(mine@) =~= Seq::<int>::empty());
        assert(idxs_view(mine@) + obs_of_trace_from(obs, trace_id, 0) =~= obs_of_trace_from(
            obs,
            trace_id,
            0,
        ));
    }
    while i < n
        invariant
            0 <= i <= n,
            n == store.observations@.len(),
            obs == store@.observations,
            obs_of_trace_from(obs, trace_id, 0) == idxs_view(mine@) + obs_of_trace_from(
                obs,
                trace_id,
                i as int,
            ),
            forall|j: int| 0 <= j < mine@.len() ==> (#[trigger] mine@[j]) < n,
        decreases n - i,
    {
        if store.observations[i].trace_id == trace_id {
            let ghost v0 = idxs_view(mine@);
            mine.push(i);
            proof {
                assert(idxs_view(mine@) =~= v0.push(i as int));
                assert(v0.push(i as int) + obs_of_trace_from(obs, trace_id, i + 1) =~= v0 + (seq![
                    i as int,
                ] + obs_of_trace_from(obs, trace_id, i + 1)));
            }
        }
        i = i + 1;
    }
    proof {
        assert(obs_of_trace_from(obs, trace_id, n as int) =~= Seq::<int>::empty());
        assert(idxs_view(mine@) + Seq::<int>::empty() =~= idxs_view(mine@));
    }
    let ghost fidx = obs_of_trace_from(obs, trace_id, 0);
    let mut ordered: Vec<usize> = Vec::new();
    let nf = mine.len();
    let mut k: usize = 0;
    proof {
        assert(fidx.skip(0) =~= fidx);
        assert(idxs_view(ordered@) =~= Seq::<int>::empty());
    }
    while k < nf
        invariant
            0 <= k <= nf,
            nf == mine@.len(),
            obs == store@.observations,
            fidx == idxs_view(mine@),
            forall|j: int| 0 <= j < mine@.len() ==> (#[trigger] mine@[j]) < store.observations@.len(),
            forall|j: int|
                0 <= j < ordered@.len() ==> (#[trigger] ordered@[j]) < store.observations@.len(),
            obs_sort_from(Seq::empty(), fidx, obs) == obs_sort_from(
                idxs_view(ordered@),
                fidx.skip(k as int),
                obs,
            ),
        decreases nf - k,
    {
        proof {
            assert(fidx.skip(k as int).first() == fidx[k as int]);
            assert(fidx.skip(k as int).drop_first() =~= fidx.skip(k + 1));
        }
        obs_insert_index(&mut ordered, mine[k], store);
        k = k + 1;
    }
    proof {
        assert(fidx.skip(nf as int) =~= Seq::<int>::empty());
    }
    let ghost osorted = ordered_obs_indices(obs, trace_id);
    let mut views: Vec<ObservationView> = Vec::new();
    let no = ordered.len();
    let mut m: usize = 0;
    while m < no
        invariant
            0 <= m <= no,
            no == ordered@.len(),
            obs == store@.observations,
            osorted == idxs_view(ordered@),
            forall|j: int|
                0 <= j < ordered@.len() ==> (#[trigger] ordered@[j]) < store.observations@.len(),
            views@.len() == m,
            forall|j: int|
                0 <= j < m ==> (#[trigger] views@[j]@) == spec_observation_view(
                    obs[osorted[j]],
                ),
        decreases no - m,
    {
        let v = build_observation_view(&store.observations[ordered[m]]);
        views.push(v);
        m = m + 1;
    }
    let id_str = row.id.hyphenated();
    let mut html_path = "/project/".to_owned();
    html_path.append(row.project_id.as_str());
    html_path.append("/traces/");
    html_path.append(id_str.as_str());
    let d = TraceDetail {
        id: row.id,
        timestamp: row.timestamp,
        name: clone_opt_string(&row.name),
        input: clone_json_or_null(&row.input),
        output: clone_json_or_null(&row.output),
        session_id: clone_opt_string(&row.session_id),
        release: clone_opt_string(&row.release),
        version: clone_opt_string(&row.version),
        user_id: clone_opt_string(&row.user_id),
        metadata: clone_json_or_null(&row.metadata),
        tags: clone_vec_string(&row.tags),
        public: row.public,
        environment: row.environment.clone(),
        html_path: html_path,
        latency: row.latency,
        total_cost: row.total_cost,
        observations: views,
        scores: Vec::new(),
    };
    proof {
        assert(string_vec_view(Seq::<String>::empty()) =~= Seq::<Seq<char>>::empty());
        assert(Seq::new(d.observations@.len(), |j: int| d.observations@[j]@) =~= Seq::new(
            osorted.len(),
            |j: int| spec_observation_view(obs[osorted[j]]),
        ));
        assert(d@ =~= spec_trace_detail(
            crate::store::trace_row_of(store@.traces, trace_id).unwrap(),
            Seq::new(osorted.len(), |j: int| spec_observation_view(obs[osorted[j]])),
        ));
    }
    Ok(d)
}

// --- the detail order really sorts -------------------------------------------

/// An observation index list in temporal order throughout.
pub open spec fn obs_indices_sorted(s: Seq<int>, rows: Seq<ObservationRowData>) -> bool {
    forall|k1: int, k2: int|
        0 <= k1 < k2 < s.len() ==> obs_before(rows, #[trigger] s[k1], #[trigger] s[k2])
}

proof fn lemma_obs_before_transitive(rows: Seq<ObservationRowData>, a: int, b: int, c: int)
    requires
        obs_before(rows, a, b),
        obs_before(rows, b, c),
    ensures
        obs_before(rows, a, c),
{
}

proof fn lemma_obs_insert_multiset(x: int, s: Seq<int>, rows: Seq<ObservationRowData>)
    ensures
        obs_insert_sorted(x, s, rows).to_multiset() == s.to_multiset().insert(x),
    decreases s.len(),
{
    broadcast use vstd::seq_lib::group_to_multiset_ensures;

    if s.len() == 0 {
        assert(obs_insert_sorted(x, s, rows) =~= Seq::<int>::empty().push(x));
        assert(obs_insert_sorted(x, s, rows).to_multiset() =~= s.to_multiset().insert(x));
    } else if obs_before(rows, x, s.first()) {
        vstd::seq_lib::to_multiset_insert(s, 0, x);
        assert(s.insert(0, x) =~= seq![x] + s);
    } else {
        lemma_obs_insert_multiset(x, s.drop_first(), rows);
        let rest = obs_insert_sorted(x, s.drop_first(), rows);
        vstd::seq_lib::to_multiset_insert(rest, 0, s.first());
        assert(rest.insert(0, s.first()) =~= seq![s.first()] + rest);
        vstd::seq_lib::to_multiset_insert(s.drop_first(), 0, s.first());
        assert(s.drop_first().insert(0, s.first()) =~= s);
        assert(obs_insert_sorted(x, s, rows).to_multiset() =~= s.to_multiset().insert(x));
    }
}

proof fn lemma_obs_insert_stays_sorted(x: int, s: Seq<int>, rows: Seq<ObservationRowData>)
    requires
        obs_indices_sorted(s, rows),
    ensures
        obs_indices_sorted(obs_insert_sorted(x, s, rows), rows),
    decreases s.len(),
{
    broadcast use vstd::seq_lib::group_to_multiset_ensures;

    let r = obs_insert_sorted(x, s, rows);
    if s.len() == 0 {
    } else if obs_before(rows, x, s.first()) {
        assert(r == seq![x] + s);
        assert forall|k1: int, k2: int|
            0 <= k1 < k2 < r.len() implies obs_before(rows, #[trigger] r[k1], #[trigger] r[k2]) by {
            if k1 == 0 {
                assert(r[k2] == s[k2 - 1]);
                if k2 > 1 {
                    lemma_obs_before_transitive(rows, x, s[0], s[k2 - 1]);
                }
            } else {
                assert(r[k1] == s[k1 - 1]);
                assert(r[k2] == s[k2 - 1]);
            }
        }
    } else {
        assert(obs_indices_sorted(s.drop_first(), rows)) by {
            assert(forall|k1: int, k2: int|
                0 <= k1 < k2 < s.drop_first().len() ==> obs_before(
                    rows,
                    #[trigger] s.drop_first()[k1],
                    #[trigger] s.drop_first()[k2],
                ));
        }
        lemma_obs_insert_stays_sorted(x, s.drop_first(), rows);
        lemma_obs_insert_multiset(x, s.drop_first(), rows);
        let rest = obs_insert_sorted(x, s.drop_first(), rows);
        assert(r == seq![s.first()] + rest);
        assert(obs_before(rows, s.first(), x));
        assert forall|k1: int, k2: int|
            0 <= k1 < k2 < r.len() implies obs_before(rows, #[trigger] r[k1], #[trigger] r[k2]) by {
            if k1 == 0 {
                let e = rest[k2 - 1];
                assert(r[k2] == e);
                assert(rest.to_multiset().count(e) > 0);
                if e != x {
                    assert(s.drop_first().to_multiset().count(e) > 0);
                    assert(s.drop_first().contains(e));
                    let w = choose|w: int|
                        0 <= w < s.drop_first().len() && s.drop_first()[w] == e;
                    assert(s[w + 1] == e);
                    assert(obs_before(rows, s[0], s[w + 1]));
                }
            } else {
                assert(r[k1] == rest[k1 - 1]);
                assert(r[k2] == rest[k2 - 1]);
            }
        }
    }
}

proof fn lemma_obs_sort_from_stays_sorted(
    acc: Seq<int>,
    s: Seq<int>,
    rows: Seq<ObservationRowData>,
)
    requires
        obs_indices_sorted(acc, rows),
    ensures
        obs_indices_sorted(obs_sort_from(acc, s, rows), rows),
    decreases s.len(),
{
    if s.len() > 0 {
        lemma_obs_insert_stays_sorted(s.first(), acc, rows);
        lemma_obs_sort_from_stays_sorted(obs_insert_sorted(s.first(), acc, rows), s.drop_first(), rows);
    }
}

/// Law: a detail view's observations come in temporal order throughout —
/// start time ascending with absent values last, then creation time, ties on
/// store position.
pub proof fn lemma_detail_order_sorted(rows: Seq<ObservationRowData>, tid: UuidVal)
    ensures
        obs_indices_sorted(ordered_obs_indices(rows, tid), rows),
{
    lemma_obs_sort_from_stays_sorted(Seq::empty(), obs_of_trace_from(rows, tid, 0), rows);
}

} // verus!
