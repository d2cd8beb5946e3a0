//! The daily rollup query: per-day trace counts, observation counts, cost
//! totals and a per-model usage breakdown over the filtered traces, with
//! stable pagination, newest day first.

use vstd::prelude::*;

use crate::api::{
    resolve_page, spec_page_limit, spec_page_number, spec_page_slice, spec_total_pages,
    total_pages, PagedData, PageMeta,
};
use crate::codec::{ts_le, ts_before, Timestamp, UuidVal};
use crate::ingest::{view_opt_str};
use crate::otlp::string_vec_view;
use crate::store::{
    opt_str_or, trace_row_of, ObservationRowData, Store, StoreData, TraceRowData,
};
use crate::text::{str_eq, string_from_chars};

verus! {

// --- days -------------------------------------------------------------------

/// Floor division by a positive divisor, on 64-bit values.
pub fn floor_div_pos(a: i64, b: i64) -> (r: i64)
    requires
        1 <= b <= 1_000_000,
    ensures
        r as int == a as int / b as int,
{
    if a >= 0 {
        proof {
            vstd::arithmetic::div_mod::lemma_div_nonincreasing(a as int, b as int);
            vstd::arithmetic::div_mod::lemma_div_pos_is_pos(a as int, b as int);
        }
        ((a as u64) / (b as u64)) as i64
    } else {
        let m: u128 = (-(a as i128)) as u128;
        let qm: u128 = (m + (b as u128 - 1)) / (b as u128);
        proof {
            let mi = m as int;
            let bi = b as int;
            let q = (mi + bi - 1) / bi;
            vstd::arithmetic::div_mod::lemma_fundamental_div_mod(mi + bi - 1, bi);
            let rm = (mi + bi - 1) % bi;
            assert(mi + bi - 1 == bi * q + rm);
            assert(a as int == (-q) * bi + (bi - 1 - rm)) by (nonlinear_arith)
                requires
                    a as int == -mi,
                    mi + bi - 1 == bi * q + rm,
            ;
            assert(0 <= bi - 1 - rm < bi);
            vstd::arithmetic::div_mod::lemma_fundamental_div_mod_converse(
                a as int,
                bi,
                -q,
                bi - 1 - rm,
            );
            assert(qm == q);
            assert(q <= mi) by (nonlinear_arith)
                requires
                    q == (mi + bi - 1) / bi,
                    bi >= 1,
                    mi >= 1,
                    mi + bi - 1 == bi * q + rm,
                    0 <= rm < bi,
            ;
        }
        (-(qm as i128)) as i64
    }
}

/// The day a timestamp falls on: days since the epoch, floored.
pub open spec fn day_of(t: Timestamp) -> int {
    t.secs as int / 86400
}

/// Computes the day of a timestamp. Days of 64-bit instants lie well within
/// the calendar range.
pub fn day_of_exec(t: Timestamp) -> (r: i64)
    ensures
        r as int == day_of(t),
        -106_751_991_167_302 <= r <= 106_751_991_167_302,
{
    proof {
        vstd::arithmetic::div_mod::lemma_div_is_ordered(
            i64::MIN as int,
            t.secs as int,
            86400,
        );
        vstd::arithmetic::div_mod::lemma_div_is_ordered(
            t.secs as int,
            i64::MAX as int,
            86400,
        );
        assert((i64::MIN as int) / 86400 >= -106_751_991_167_302);
        assert((i64::MAX as int) / 86400 <= 106_751_991_167_302);
    }
    floor_div_pos(t.secs, 86400)
}

/// Insertion adds no day beyond the given one and those present.
proof fn lemma_insert_day_elems(x: int, s: Seq<int>)
    ensures
        forall|j: int|
            0 <= j < insert_day_desc(x, s).len() ==> (#[trigger] insert_day_desc(x, s)[j]) == x
                || s.contains(insert_day_desc(x, s)[j]),
    decreases s.len(),
{
    if s.len() > 0 && !(x > s.first()) && x != s.first() {
        lemma_insert_day_elems(x, s.drop_first());
        assert forall|j: int| 0 <= j < insert_day_desc(x, s).len() implies (#[trigger] insert_day_desc(
            x,
            s,
        )[j]) == x || s.contains(insert_day_desc(x, s)[j]) by {
            if j == 0 {
                assert(s.contains(s.first()));
            } else {
                let e = insert_day_desc(x, s.drop_first())[j - 1];
                assert(insert_day_desc(x, s)[j] == e);
                if e != x {
                    assert(s.drop_first().contains(e));
                    let w = choose|w: int| 0 <= w < s.drop_first().len() && s.drop_first()[w] == e;
                    assert(s[w + 1] == e);
                }
            }
        }
    }
}

// --- filters ------------------------------------------------------------------

/// The parameters of a daily-metrics request.
pub struct MetricsDailyQuery {
    pub page: Option<i64>,
    pub limit: Option<i64>,
    pub trace_name: Option<String>,
    pub user_id: Option<String>,
    pub tags: Vec<String>,
    pub from_timestamp: Option<Timestamp>,
    pub to_timestamp: Option<Timestamp>,
}

/// The mathematical value of a [`MetricsDailyQuery`].
#[verifier::ext_equal]
pub struct MetricsDailyQueryData {
    pub page: Option<i64>,
    pub limit: Option<i64>,
    pub trace_name: Option<Seq<char>>,
    pub user_id: Option<Seq<char>>,
    pub tags: Seq<Seq<char>>,
    pub from_timestamp: Option<Timestamp>,
    pub to_timestamp: Option<Timestamp>,
}

impl View for MetricsDailyQuery {
    type V = MetricsDailyQueryData;

    open spec fn view(&self) -> MetricsDailyQueryData {
        MetricsDailyQueryData {
            page: self.page,
            limit: self.limit,
            trace_name: view_opt_str(self.trace_name),
            user_id: view_opt_str(self.user_id),
            tags: string_vec_view(self.tags@),
            from_timestamp: self.from_timestamp,
            to_timestamp: self.to_timestamp,
        }
    }
}

/// The resolved time range: `to` defaults to now, `from` to thirty days
/// before `to` (seconds saturating).
pub open spec fn resolved_range(q: MetricsDailyQueryData, now: Timestamp) -> (Timestamp, Timestamp) {
    let to = match q.to_timestamp {
        Some(t) => t,
        None => now,
    };
    let from = match q.from_timestamp {
        Some(f) => f,
        None => Timestamp {
            secs: if to.secs as int - 2_592_000 < i64::MIN {
                i64::MIN
            } else {
                (to.secs - 2_592_000) as i64
            },
            nanos: to.nanos,
        },
    };
    (from, to)
}

/// Whether a trace row is counted by the rollup.
pub open spec fn rollup_matches(
    r: TraceRowData,
    q: MetricsDailyQueryData,
    d: Seq<char>,
    from: Timestamp,
    to: Timestamp,
) -> bool {
    &&& r.project_id == d
    &&& ts_le(from, r.timestamp)
    &&& ts_le(r.timestamp, to)
    &&& match q.trace_name {
        Some(x) => r.name == Some(x),
        None => true,
    }
    &&& match q.user_id {
        Some(x) => r.user_id == Some(x),
        None => true,
    }
    &&& forall|i: int| 0 <= i < q.tags.len() ==> r.tags.contains(#[trigger] q.tags[i])
}

fn rollup_row_matches(
    row: &crate::store::TraceRow,
    q: &MetricsDailyQuery,
    d: &String,
    from: Timestamp,
    to: Timestamp,
) -> (r: bool)
    ensures
        r == rollup_matches(row@, q@, d@, from, to),
{
    if !str_eq(row.project_id.as_str(), d.as_str()) {
        return false;
    }
    if ts_before(row.timestamp, from) {
        return false;
    }
    if ts_before(to, row.timestamp) {
        return false;
    }
    match &q.trace_name {
        Some(x) => match &row.name {
            Some(n) => {
                if !str_eq(n.as_str(), x.as_str()) {
                    return false;
                }
            },
            None => {
                return false;
            },
        },
        None => {},
    }
    match &q.user_id {
        Some(x) => match &row.user_id {
            Some(n) => {
                if !str_eq(n.as_str(), x.as_str()) {
                    return false;
                }
            },
            None => {
                return false;
            },
        },
        None => {},
    }
    let nt = q.tags.len();
    let mut i: usize = 0;
    while i < nt
        invariant
            0 <= i <= nt,
            nt == q.tags@.len(),
            forall|j: int| 0 <= j < i ==> row@.tags.contains(#[trigger] q@.tags[j]),
        decreases nt - i,
    {
        let mut found = false;
        let nh = row.tags.len();
        let mut k: usize = 0;
        while k < nh
            invariant
                0 <= k <= nh,
                nh == row.tags@.len(),
                i < q.tags@.len(),
                !found ==> forall|j: int| 0 <= j < k ==> string_vec_view(row.tags@)[j] != q.tags@[i as int]@,
                found ==> row@.tags.contains(q@.tags[i as int]),
            decreases nh - k,
        {
            if str_eq(row.tags[k].as_str(), q.tags[i].as_str()) {
                proof {
                    assert(string_vec_view(row.tags@)[k as int] == q.tags@[i as int]@);
                }
                found = true;
            }
            k = k + 1;
        }
        if !found {
            proof {
                assert(!row@.tags.contains(q@.tags[i as int]));
            }
            return false;
        }
        i = i + 1;
    }
    true
}

// --- day list -----------------------------------------------------------------

/// Insertion of a day into a descending, duplicate-free day list.
pub open spec fn insert_day_desc(x: int, s: Seq<int>) -> Seq<int>
    decreases s.len(),
{
    if s.len() == 0 {
        seq![x]
    } else if x > s.first() {
        seq![x] + s
    } else if x == s.first() {
        s
    } else {
        seq![s.first()] + insert_day_desc(x, s.drop_first())
    }
}

/// The distinct days of the filtered traces from `i` on, newest first.
pub open spec fn days_from(
    acc: Seq<int>,
    rows: Seq<TraceRowData>,
    q: MetricsDailyQueryData,
    d: Seq<char>,
    from: Timestamp,
    to: Timestamp,
    i: int,
) -> Seq<int>
    decreases rows.len() - i,
{
    if i < 0 || i >= rows.len() {
        acc
    } else if rollup_matches(rows[i], q, d, from, to) {
        days_from(insert_day_desc(day_of(rows[i].timestamp), acc), rows, q, d, from, to, i + 1)
    } else {
        days_from(acc, rows, q, d, from, to, i + 1)
    }
}

/// The distinct days the rollup reports, newest first.
pub open spec fn rollup_days(
    st: StoreData,
    q: MetricsDailyQueryData,
    d: Seq<char>,
    from: Timestamp,
    to: Timestamp,
) -> Seq<int> {
    days_from(Seq::empty(), st.traces, q, d, from, to, 0)
}

proof fn lemma_insert_day_at(x: int, s: Seq<int>, p: int)
    requires
        0 <= p <= s.len(),
        forall|j: int| 0 <= j < p ==> x < #[trigger] s[j],
        p < s.len() ==> x >= s[p],
    ensures
        insert_day_desc(x, s) == (if p < s.len() && x == s[p] {
            s
        } else {
            s.take(p) + seq![x] + s.skip(p)
        }),
    decreases p,
{
    if s.len() == 0 {
        assert(insert_day_desc(x, s) =~= s.take(p) + seq![x] + s.skip(p));
    } else if p == 0 {
        if x == s[0] {
        } else {
            assert(insert_day_desc(x, s) =~= s.take(0) + seq![x] + s.skip(0));
        }
    } else {
        lemma_insert_day_at(x, s.drop_first(), p - 1);
        assert(s.drop_first().take(p - 1) =~= s.take(p).drop_first());
        assert(s.drop_first().skip(p - 1) =~= s.skip(p));
        if p < s.len() && x == s[p] {
            assert(insert_day_desc(x, s) =~= s);
        } else {
            assert(insert_day_desc(x, s) =~= s.take(p) + seq![x] + s.skip(p));
        }
    }
}

fn insert_day(days: &mut Vec<i64>, x: i64)
    ensures
        idxs64_view(final(days)@) == insert_day_desc(x as int, idxs64_view(old(days)@)),
{
    let ghost s0 = idxs64_view(days@);
    let n = days.len();
    let mut p: usize = 0;
    while p < n
        invariant
            0 <= p <= n,
            n == days@.len(),
            days@ == old(days)@,
            s0 == idxs64_view(days@),
            forall|j: int| 0 <= j < p ==> (x as int) < #[trigger] s0[j],
        decreases n - p,
    {
        if x > days[p] {
            proof {
                lemma_insert_day_at(x as int, s0, p as int);
            }
            days.insert(p, x);
            proof {
                assert(idxs64_view(days@) =~= s0.take(p as int) + seq![x as int] + s0.skip(
                    p as int,
                ));
            }
            return;
        }
        if x == days[p] {
            proof {
                lemma_insert_day_at(x as int, s0, p as int);
            }
            return;
        }
        p = p + 1;
    }
    proof {
        lemma_insert_day_at(x as int, s0, n as int);
    }
    days.insert(n, x);
    proof {
        assert(idxs64_view(days@) =~= s0.take(n as int) + seq![x as int] + s0.skip(n as int));
    }
}

/// The values of an `i64` vector.
pub open spec fn idxs64_view(v: Seq<i64>) -> Seq<int> {
    Seq::new(v.len(), |i: int| v[i] as int)
}

// --- per-day aggregates ---------------------------------------------------------

/// The number of filtered traces on a day, from `i` on.
pub open spec fn count_traces_from(
    rows: Seq<TraceRowData>,
    q: MetricsDailyQueryData,
    d: Seq<char>,
    from: Timestamp,
    to: Timestamp,
    day: int,
    i: int,
) -> int
    decreases rows.len() - i,
{
    if i < 0 || i >= rows.len() {
        0
    } else {
        (if rollup_matches(rows[i], q, d, from, to) && day_of(rows[i].timestamp) == day {
            1int
        } else {
            0int
        }) + count_traces_from(rows, q, d, from, to, day, i + 1)
    }
}

/// The summed trace cost on a day, from `i` on; absent costs count zero.
pub open spec fn sum_cost_from(
    rows: Seq<TraceRowData>,
    q: MetricsDailyQueryData,
    d: Seq<char>,
    from: Timestamp,
    to: Timestamp,
    day: int,
    i: int,
) -> int
    decreases rows.len() - i,
{
    if i < 0 || i >= rows.len() {
        0
    } else {
        (if rollup_matches(rows[i], q, d, from, to) && day_of(rows[i].timestamp) == day {
            match rows[i].total_cost {
                Some(c) => c as int,
                None => 0,
            }
        } else {
            0int
        }) + sum_cost_from(rows, q, d, from, to, day, i + 1)
    }
}

/// Whether an observation joins a filtered trace of the day.
pub open spec fn obs_joined(
    st: StoreData,
    q: MetricsDailyQueryData,
    d: Seq<char>,
    from: Timestamp,
    to: Timestamp,
    day: int,
    o: ObservationRowData,
) -> bool {
    match trace_row_of(st.traces, o.trace_id) {
        Some(t) => rollup_matches(t, q, d, from, to) && day_of(t.timestamp) == day,
        None => false,
    }
}

/// The number of observations joined to the day's traces, from `i` on.
pub open spec fn count_obs_from(
    st: StoreData,
    q: MetricsDailyQueryData,
    d: Seq<char>,
    from: Timestamp,
    to: Timestamp,
    day: int,
    i: int,
) -> int
    decreases st.observations.len() - i,
{
    if i < 0 || i >= st.observations.len() {
        0
    } else {
        (if obs_joined(st, q, d, from, to, day, st.observations[i]) {
            1int
        } else {
            0int
        }) + count_obs_from(st, q, d, from, to, day, i + 1)
    }
}

// --- model usage ------------------------------------------------------------------

/// The model name an observation reports, `unknown` when absent.
pub open spec fn model_of_obs(o: ObservationRowData) -> Seq<char> {
    opt_str_or(o.model, "unknown"@)
}

/// Whether an observation contributes to the day's model breakdown.
pub open spec fn obs_in_breakdown(
    st: StoreData,
    q: MetricsDailyQueryData,
    d: Seq<char>,
    from: Timestamp,
    to: Timestamp,
    day: int,
    o: ObservationRowData,
) -> bool {
    obs_joined(st, q, d, from, to, day, o) && o.obs_type == "GENERATION"@
}

/// The distinct model names of the day's generation observations, in first
/// appearance order, from `i` on.
pub open spec fn models_from(
    acc: Seq<Seq<char>>,
    st: StoreData,
    q: MetricsDailyQueryData,
    d: Seq<char>,
    from: Timestamp,
    to: Timestamp,
    day: int,
    i: int,
) -> Seq<Seq<char>>
    decreases st.observations.len() - i,
{
    if i < 0 || i >= st.observations.len() {
        acc
    } else {
        let o = st.observations[i];
        let acc2 = if obs_in_breakdown(st, q, d, from, to, day, o) && !acc.contains(
            model_of_obs(o),
        ) {
            acc.push(model_of_obs(o))
        } else {
            acc
        };
        models_from(acc2, st, q, d, from, to, day, i + 1)
    }
}

/// A summed token statistic over the day's generation observations of one
/// model, from `i` on; absent counts are zero. `which` selects the field:
/// 0 prompt, 1 completion, 2 total.
pub open spec fn sum_tokens_from(
    st: StoreData,
    q: MetricsDailyQueryData,
    d: Seq<char>,
    from: Timestamp,
    to: Timestamp,
    day: int,
    name: Seq<char>,
    which: int,
    i: int,
) -> int
    decreases st.observations.len() - i,
{
    if i < 0 || i >= st.observations.len() {
        0
    } else {
        let o = st.observations[i];
        (if obs_in_breakdown(st, q, d, from, to, day, o) && model_of_obs(o) == name {
            let v = if which == 0 {
                o.prompt_tokens
            } else if which == 1 {
                o.completion_tokens
            } else {
                o.total_tokens
            };
            match v {
                Some(n) => n as int,
                None => 0,
            }
        } else {
            0int
        }) + sum_tokens_from(st, q, d, from, to, day, name, which, i + 1)
    }
}

/// The summed calculated total cost of the model's observations, from `i` on.
pub open spec fn sum_model_cost_from(
    st: StoreData,
    q: MetricsDailyQueryData,
    d: Seq<char>,
    from: Timestamp,
    to: Timestamp,
    day: int,
    name: Seq<char>,
    i: int,
) -> int
    decreases st.observations.len() - i,
{
    if i < 0 || i >= st.observations.len() {
        0
    } else {
        let o = st.observations[i];
        (if obs_in_breakdown(st, q, d, from, to, day, o) && model_of_obs(o) == name {
            match o.calculated_total_cost {
                Some(n) => n as int,
                None => 0,
            }
        } else {
            0int
        }) + sum_model_cost_from(st, q, d, from, to, day, name, i + 1)
    }
}

/// The number of the model's observations on the day, from `i` on.
pub open spec fn count_model_obs_from(
    st: StoreData,
    q: MetricsDailyQueryData,
    d: Seq<char>,
    from: Timestamp,
    to: Timestamp,
    day: int,
    name: Seq<char>,
    i: int,
) -> int
    decreases st.observations.len() - i,
{
    if i < 0 || i >= st.observations.len() {
        0
    } else {
        (if obs_in_breakdown(st, q, d, from, to, day, st.observations[i]) && model_of_obs(
            st.observations[i],
        ) == name {
            1int
        } else {
            0int
        }) + count_model_obs_from(st, q, d, from, to, day, name, i + 1)
    }
}

/// The distinct trace identifiers of the model's observations, from `i` on.
pub open spec fn model_trace_ids_from(
    acc: Seq<UuidVal>,
    st: StoreData,
    q: MetricsDailyQueryData,
    d: Seq<char>,
    from: Timestamp,
    to: Timestamp,
    day: int,
    name: Seq<char>,
    i: int,
) -> Seq<UuidVal>
    decreases st.observations.len() - i,
{
    if i < 0 || i >= st.observations.len() {
        acc
    } else {
        let o = st.observations[i];
        let acc2 = if obs_in_breakdown(st, q, d, from, to, day, o) && model_of_obs(o) == name
            && !acc.contains(o.trace_id) {
            acc.push(o.trace_id)
        } else {
            acc
        };
        model_trace_ids_from(acc2, st, q, d, from, to, day, name, i + 1)
    }
}

/// One model's row of the usage breakdown.
pub struct ModelUsageRow {
    pub model: String,
    pub input_usage: i128,
    pub output_usage: i128,
    pub total_usage: i128,
    pub count_traces: i64,
    pub count_observations: i64,
    pub total_cost: i128,
}

/// The mathematical value of a [`ModelUsageRow`].
#[verifier::ext_equal]
pub struct ModelUsageRowData {
    pub model: Seq<char>,
    pub input_usage: int,
    pub output_usage: int,
    pub total_usage: int,
    pub count_traces: int,
    pub count_observations: int,
    pub total_cost: int,
}

impl View for ModelUsageRow {
    type V = ModelUsageRowData;

    open spec fn view(&self) -> ModelUsageRowData {
        ModelUsageRowData {
            model: self.model@,
            input_usage: self.input_usage as int,
            output_usage: self.output_usage as int,
            total_usage: self.total_usage as int,
            count_traces: self.count_traces as int,
            count_observations: self.count_observations as int,
            total_cost: self.total_cost as int,
        }
    }
}

/// The breakdown row of one model on one day.
pub open spec fn spec_model_row(
    st: StoreData,
    q: MetricsDailyQueryData,
    d: Seq<char>,
    from: Timestamp,
    to: Timestamp,
    day: int,
    name: Seq<char>,
) -> ModelUsageRowData {
    ModelUsageRowData {
        model: name,
        input_usage: sum_tokens_from(st, q, d, from, to, day, name, 0, 0),
        output_usage: sum_tokens_from(st, q, d, from, to, day, name, 1, 0),
        total_usage: sum_tokens_from(st, q, d, from, to, day, name, 2, 0),
        count_traces: model_trace_ids_from(Seq::empty(), st, q, d, from, to, day, name, 0).len() as int,
        count_observations: count_model_obs_from(st, q, d, from, to, day, name, 0),
        total_cost: sum_model_cost_from(st, q, d, from, to, day, name, 0),
    }
}

/// Insertion into the usage array: before the first strictly cheaper row, so
/// the array is sorted by total cost, descending, stably.
pub open spec fn usage_insert(x: ModelUsageRowData, s: Seq<ModelUsageRowData>) -> Seq<
    ModelUsageRowData,
>
    decreases s.len(),
{
    if s.len() == 0 {
        seq![x]
    } else if x.total_cost > s.first().total_cost {
        seq![x] + s
    } else {
        seq![s.first()] + usage_insert(x, s.drop_first())
    }
}

/// The usage rows sorted by total cost, descending.
pub open spec fn usage_sort_from(
    acc: Seq<ModelUsageRowData>,
    s: Seq<ModelUsageRowData>,
) -> Seq<ModelUsageRowData>
    decreases s.len(),
{
    if s.len() == 0 {
        acc
    } else {
        usage_sort_from(usage_insert(s.first(), acc), s.drop_first())
    }
}

/// The day's usage array: one row per model of the day's generation
/// observations, sorted by total cost, descending.
pub open spec fn spec_usage_array(
    st: StoreData,
    q: MetricsDailyQueryData,
    d: Seq<char>,
    from: Timestamp,
    to: Timestamp,
    day: int,
) -> Seq<ModelUsageRowData> {
    let models = models_from(Seq::empty(), st, q, d, from, to, day, 0);
    usage_sort_from(
        Seq::empty(),
        Seq::new(models.len(), |i: int| spec_model_row(st, q, d, from, to, day, models[i])),
    )
}

/// The usage array is weakly sorted: costs never increase along it.
pub open spec fn usage_sorted(s: Seq<ModelUsageRowData>) -> bool {
    forall|k1: int, k2: int|
        0 <= k1 < k2 < s.len() ==> (#[trigger] s[k1]).total_cost >= (#[trigger] s[k2]).total_cost
}

proof fn lemma_usage_insert_multiset(x: ModelUsageRowData, s: Seq<ModelUsageRowData>)
    ensures
        usage_insert(x, s).to_multiset() == s.to_multiset().insert(x),
    decreases s.len(),
{
    broadcast use vstd::seq_lib::group_to_multiset_ensures;

    if s.len() == 0 {
        assert(usage_insert(x, s) =~= Seq::<ModelUsageRowData>::empty().push(x));
        assert(usage_insert(x, s).to_multiset() =~= s.to_multiset().insert(x));
    } else if x.total_cost > s.first().total_cost {
        vstd::seq_lib::to_multiset_insert(s, 0, x);
        assert(s.insert(0, x) =~= seq![x] + s);
    } else {
        lemma_usage_insert_multiset(x, s.drop_first());
        let rest = usage_insert(x, s.drop_first());
        vstd::seq_lib::to_multiset_insert(rest, 0, s.first());
        assert(rest.insert(0, s.first()) =~= seq![s.first()] + rest);
        vstd::seq_lib::to_multiset_insert(s.drop_first(), 0, s.first());
        assert(s.drop_first().insert(0, s.first()) =~= s);
        assert(usage_insert(x, s).to_multiset() =~= s.to_multiset().insert(x));
    }
}

proof fn lemma_usage_insert_sorted(x: ModelUsageRowData, s: Seq<ModelUsageRowData>)
    requires
        usage_sorted(s),
    ensures
        usage_sorted(usage_insert(x, s)),
    decreases s.len(),
{
    broadcast use vstd::seq_lib::group_to_multiset_ensures;

    let r = usage_insert(x, s);
    if s.len() == 0 {
    } else if x.total_cost > s.first().total_cost {
        assert(r == seq![x] + s);
        assert forall|k1: int, k2: int|
            0 <= k1 < k2 < r.len() implies (#[trigger] r[k1]).total_cost
            >= (#[trigger] r[k2]).total_cost by {
            if k1 == 0 {
                assert(r[k2] == s[k2 - 1]);
                if k2 > 1 {
                    assert(s[0].total_cost >= s[k2 - 1].total_cost);
                }
            } else {
                assert(r[k1] == s[k1 - 1]);
                assert(r[k2] == s[k2 - 1]);
            }
        }
    } else {
        assert(usage_sorted(s.drop_first())) by {
            assert(forall|k1: int, k2: int|
                0 <= k1 < k2 < s.drop_first().len() ==> (#[trigger] s.drop_first()[k1]).total_cost
                    >= (#[trigger] s.drop_first()[k2]).total_cost);
        }
        lemma_usage_insert_sorted(x, s.drop_first());
        lemma_usage_insert_multiset(x, s.drop_first());
        let rest = usage_insert(x, s.drop_first());
        assert(r == seq![s.first()] + rest);
        assert forall|k1: int, k2: int|
            0 <= k1 < k2 < r.len() implies (#[trigger] r[k1]).total_cost
            >= (#[trigger] r[k2]).total_cost by {
            if k1 == 0 {
                let e = rest[k2 - 1];
                assert(r[k2] == e);
                assert(rest.to_multiset().count(e) > 0);
                if e == x {
                    assert(s.first().total_cost >= e.total_cost);
                } else {
                    assert(s.drop_first().to_multiset().count(e) > 0);
                    assert(s.drop_first().contains(e));
                    let w = choose|w: int|
                        0 <= w < s.drop_first().len() && s.drop_first()[w] == e;
                    assert(s[w + 1] == e);
                    assert(s.first().total_cost >= e.total_cost);
                }
            } else {
                assert(r[k1] == rest[k1 - 1]);
                assert(r[k2] == rest[k2 - 1]);
            }
        }
    }
}

proof fn lemma_usage_sort_from_sorted(acc: Seq<ModelUsageRowData>, s: Seq<ModelUsageRowData>)
    requires
        usage_sorted(acc),
    ensures
        usage_sorted(usage_sort_from(acc, s)),
    decreases s.len(),
{
    if s.len() > 0 {
        lemma_usage_insert_sorted(s.first(), acc);
        lemma_usage_sort_from_sorted(usage_insert(s.first(), acc), s.drop_first());
    }
}

/// Law: the per-model usage array of every report row is sorted by total
/// cost, descending. Rows of equal cost may come in either order.
pub proof fn lemma_usage_array_sorted(
    st: StoreData,
    q: MetricsDailyQueryData,
    d: Seq<char>,
    from: Timestamp,
    to: Timestamp,
    day: int,
)
    ensures
        usage_sorted(spec_usage_array(st, q, d, from, to, day)),
{
    let models = models_from(Seq::empty(), st, q, d, from, to, day, 0);
    lemma_usage_sort_from_sorted(
        Seq::empty(),
        Seq::new(models.len(), |i: int| spec_model_row(st, q, d, from, to, day, models[i])),
    );
}

// --- calendar dates -----------------------------------------------------------------

/// The proleptic Gregorian date of a day number (days since the epoch):
/// year, month, day of month.
pub open spec fn civil_of_day(z0: int) -> (int, int, int) {
    let z = z0 + 719468;
    let era = z / 146097;
    let doe = z - era * 146097;
    let yoe = (doe - doe / 1460 + doe / 36524 - doe / 146096) / 365;
    let y = yoe + era * 400;
    let doy = doe - (365 * yoe + yoe / 4 - yoe / 100);
    let mp = (5 * doy + 2) / 153;
    let dd = doy - (153 * mp + 2) / 5 + 1;
    let mm = mp + (if mp < 10 {
        3int
    } else {
        -9int
    });
    ((if mm <= 2 {
        y + 1
    } else {
        y
    }), mm, dd)
}

/// The decimal digits of a number.
pub open spec fn dec_str(n: nat) -> Seq<char>
    decreases n,
{
    if n < 10 {
        seq![((48 + n) as u8) as char]
    } else {
        dec_str(n / 10) + seq![((48 + n % 10) as u8) as char]
    }
}

/// Zero-padding to a width.
pub open spec fn zero_pad(s: Seq<char>, w: int) -> Seq<char>
    decreases w,
{
    if s.len() >= w {
        s
    } else {
        seq!['0'] + zero_pad(s, w - 1)
    }
}

/// The magnitude of a number.
pub open spec fn abs_int(i: int) -> nat {
    if i < 0 {
        (-i) as nat
    } else {
        i as nat
    }
}

/// The `YYYY-MM-DD` text of a day number; a negative year keeps its sign.
pub open spec fn spec_date_string(day: int) -> Seq<char> {
    let ymd = civil_of_day(day);
    let ys = if ymd.0 < 0 {
        seq!['-'] + zero_pad(dec_str(abs_int(ymd.0)), 4)
    } else {
        zero_pad(dec_str(abs_int(ymd.0)), 4)
    };
    ys + seq!['-'] + zero_pad(dec_str(abs_int(ymd.1)), 2) + seq!['-'] + zero_pad(
        dec_str(abs_int(ymd.2)),
        2,
    )
}

fn dec_chars(n: u64) -> (r: Vec<char>)
    ensures
        r@ == dec_str(n as nat),
    decreases n,
{
    if n < 10 {
        let mut v: Vec<char> = Vec::new();
        v.push((48 + n as u8) as char);
        proof {
            assert(v@ =~= dec_str(n as nat));
        }
        v
    } else {
        let mut v = dec_chars(n / 10);
        v.push((48 + (n % 10) as u8) as char);
        proof {
            assert(v@ =~= dec_str((n / 10) as nat) + seq![((48 + (n as nat) % 10) as u8) as char]);
        }
        v
    }
}

fn padded_dec(n: u64, w: usize) -> (r: Vec<char>)
    requires
        w <= 8,
    ensures
        r@ == zero_pad(dec_str(n as nat), w as int),
{
    let digits = dec_chars(n);
    let mut out: Vec<char> = Vec::new();
    let nd = digits.len();
    let mut pad: usize = 0;
    let needed: usize = if nd >= w {
        0
    } else {
        w - nd
    };
    while pad < needed
        invariant
            0 <= pad <= needed,
            needed == (if digits@.len() >= w {
                0int
            } else {
                w - digits@.len()
            }),
            digits@ == dec_str(n as nat),
            out@.len() == pad,
            forall|j: int| 0 <= j < pad ==> out@[j] == '0',
        decreases needed - pad,
    {
        out.push('0');
        pad = pad + 1;
    }
    let mut i: usize = 0;
    while i < nd
        invariant
            0 <= i <= nd,
            nd == digits@.len(),
            out@.len() == needed + i,
            needed == (if digits@.len() >= w {
                0int
            } else {
                w - digits@.len()
            }),
            digits@ == dec_str(n as nat),
            forall|j: int| 0 <= j < needed ==> out@[j] == '0',
            forall|j: int| 0 <= j < i ==> out@[needed + j] == digits@[j],
        decreases nd - i,
    {
        out.push(digits[i]);
        i = i + 1;
    }
    proof {
        lemma_zero_pad_shape(digits@, w as int);
        assert(out@ =~= zero_pad(digits@, w as int));
    }
    out
}

proof fn lemma_zero_pad_shape(s: Seq<char>, w: int)
    ensures
        zero_pad(s, w).len() == (if s.len() >= w {
            s.len() as int
        } else {
            w
        }),
        forall|j: int|
            0 <= j < zero_pad(s, w).len() - s.len() ==> #[trigger] zero_pad(s, w)[j] == '0',
        forall|j: int|
            zero_pad(s, w).len() - s.len() <= j < zero_pad(s, w).len() ==> #[trigger] zero_pad(
                s,
                w,
            )[j] == s[j - (zero_pad(s, w).len() - s.len())],
    decreases w,
{
    if s.len() < w {
        lemma_zero_pad_shape(s, w - 1);
        let zp = zero_pad(s, w);
        let zp1 = zero_pad(s, w - 1);
        assert(zp == seq!['0'] + zp1);
        assert forall|j: int| zp.len() - s.len() <= j < zp.len() implies #[trigger] zp[j]
            == s[j - (zp.len() - s.len())] by {
            assert(zp[j] == zp1[j - 1]);
        }
        assert forall|j: int| 0 <= j < zp.len() - s.len() implies #[trigger] zp[j] == '0' by {
            if j > 0 {
                assert(zp[j] == zp1[j - 1]);
            }
        }
    }
}

fn mag64(v: i64) -> (r: u64)
    ensures
        r as nat == abs_int(v as int),
{
    if v >= 0 {
        v as u64
    } else {
        (-(v as i128)) as u64
    }
}

/// Computes the proleptic Gregorian date of a day number.
pub fn civil_of_day_exec(z0: i64) -> (r: (i64, i64, i64))
    requires
        -200_000_000_000_000 <= z0 <= 200_000_000_000_000,
    ensures
        r.0 as int == civil_of_day(z0 as int).0,
        r.1 as int == civil_of_day(z0 as int).1,
        r.2 as int == civil_of_day(z0 as int).2,
{
    let z: i64 = z0 + 719468;
    let era = floor_div_pos(z, 146097);
    proof {
        vstd::arithmetic::div_mod::lemma_fundamental_div_mod(z as int, 146097);
        assert(era as int * 146097 == 146097 * (z as int / 146097)) by (nonlinear_arith)
            requires
                era as int == z as int / 146097,
        ;
    }
    let doe: i64 = z - era * 146097;
    proof {
        assert(0 <= doe < 146097);
    }
    let d1 = floor_div_pos(doe, 1460);
    let d2 = floor_div_pos(doe, 36524);
    let d3 = floor_div_pos(doe, 146096);
    proof {
        vstd::arithmetic::div_mod::lemma_div_pos_is_pos(doe as int, 1460);
        vstd::arithmetic::div_mod::lemma_div_pos_is_pos(doe as int, 36524);
        vstd::arithmetic::div_mod::lemma_div_pos_is_pos(doe as int, 146096);
        vstd::arithmetic::div_mod::lemma_div_nonincreasing(doe as int, 1460);
        vstd::arithmetic::div_mod::lemma_div_nonincreasing(doe as int, 36524);
        vstd::arithmetic::div_mod::lemma_div_nonincreasing(doe as int, 146096);
    }
    let yoe = floor_div_pos(doe - d1 + d2 - d3, 365);
    proof {
        vstd::arithmetic::div_mod::lemma_div_pos_is_pos((doe - d1 + d2 - d3) as int, 365);
        vstd::arithmetic::div_mod::lemma_div_is_ordered(
            (doe - d1 + d2 - d3) as int,
            150000,
            365,
        );
        assert(150000int / 365 == 410);
    }
    let y: i64 = yoe + era * 400;
    proof {
        assert(-600_000_000_000int <= era as int * 400 <= 600_000_000_000) by (nonlinear_arith)
            requires
                -1_500_000_000 <= era as int <= 1_500_000_000,
        ;
    }
    let yoe4 = floor_div_pos(yoe, 4);
    let yoe100 = floor_div_pos(yoe, 100);
    proof {
        vstd::arithmetic::div_mod::lemma_div_pos_is_pos(yoe as int, 4);
        vstd::arithmetic::div_mod::lemma_div_pos_is_pos(yoe as int, 100);
        vstd::arithmetic::div_mod::lemma_div_nonincreasing(yoe as int, 4);
        vstd::arithmetic::div_mod::lemma_div_nonincreasing(yoe as int, 100);
    }
    let doy: i64 = doe - (365 * yoe + yoe4 - yoe100);
    let mp = floor_div_pos(5 * doy + 2, 153);
    proof {
        vstd::arithmetic::div_mod::lemma_div_is_ordered(5 * doy as int + 2, 5_000_000, 153);
        vstd::arithmetic::div_mod::lemma_div_is_ordered(-5_000_000, 5 * doy as int + 2, 153);
        assert(5_000_000int / 153 == 32679);
        assert((-5_000_000int) / 153 == -32680);
    }
    let m153 = floor_div_pos(153 * mp + 2, 5);
    proof {
        vstd::arithmetic::div_mod::lemma_div_is_ordered(153 * mp as int + 2, 6_000_000, 5);
        vstd::arithmetic::div_mod::lemma_div_is_ordered(-6_000_000, 153 * mp as int + 2, 5);
        assert(6_000_000int / 5 == 1_200_000);
        assert((-6_000_000int) / 5 == -1_200_000);
    }
    let dd: i64 = doy - m153 + 1;
    let mm: i64 = if mp < 10 {
        mp + 3
    } else {
        mp - 9
    };
    let yy: i64 = if mm <= 2 {
        y + 1
    } else {
        y
    };
    (yy, mm, dd)
}

/// Renders a day number as `YYYY-MM-DD`.
pub fn date_string(day: i64) -> (r: String)
    requires
        -200_000_000_000_000 <= day <= 200_000_000_000_000,
    ensures
        r@ == spec_date_string(day as int),
{
    let (y, m, d) = civil_of_day_exec(day);
    let mut out: Vec<char> = Vec::new();
    if y < 0 {
        out.push('-');
    }
    let ypart = padded_dec(mag64(y), 4);
    let mut i: usize = 0;
    let ny = ypart.len();
    while i < ny
        invariant
            0 <= i <= ny,
            ny == ypart@.len(),
            out@.len() == (if y < 0 {
                1int
            } else {
                0int
            }) + i,
            y < 0 ==> out@[0] == '-',
            forall|j: int|
                0 <= j < i ==> out@[(if y < 0 {
                    1int
                } else {
                    0int
                }) + j] == ypart@[j],
        decreases ny - i,
    {
        out.push(ypart[i]);
        i = i + 1;
    }
    out.push('-');
    let mpart = padded_dec(mag64(m), 2);
    let mut k: usize = 0;
    let nm = mpart.len();
    let ghost base1 = out@;
    while k < nm
        invariant
            0 <= k <= nm,
            nm == mpart@.len(),
            out@ == base1 + mpart@.subrange(0, k as int),
        decreases nm - k,
    {
        out.push(mpart[k]);
        proof {
            assert(out@ =~= base1 + mpart@.subrange(0, k + 1));
        }
        k = k + 1;
    }
    out.push('-');
    let dpart = padded_dec(mag64(d), 2);
    let mut t: usize = 0;
    let nd = dpart.len();
    let ghost base2 = out@;
    while t < nd
        invariant
            0 <= t <= nd,
            nd == dpart@.len(),
            out@ == base2 + dpart@.subrange(0, t as int),
        decreases nd - t,
    {
        out.push(dpart[t]);
        proof {
            assert(out@ =~= base2 + dpart@.subrange(0, t + 1));
        }
        t = t + 1;
    }
    proof {
        assert(mpart@.subrange(0, nm as int) =~= mpart@);
        assert(dpart@.subrange(0, nd as int) =~= dpart@);
        assert(out@ =~= spec_date_string(day as int));
    }
    string_from_chars(&out)
}

// --- the rollup ------------------------------------------------------------------

/// One row of a daily-metrics response.
pub struct MetricsDailyItem {
    pub date: String,
    pub day: i64,
    pub count_traces: i64,
    pub count_observations: i64,
    pub total_cost: i128,
    pub usage: Vec<ModelUsageRow>,
}

/// The mathematical value of a [`MetricsDailyItem`].
#[verifier::ext_equal]
pub struct MetricsDailyItemData {
    pub date: Seq<char>,
    pub day: int,
    pub count_traces: int,
    pub count_observations: int,
    pub total_cost: int,
    pub usage: Seq<ModelUsageRowData>,
}

impl View for MetricsDailyItem {
    type V = MetricsDailyItemData;

    open spec fn view(&self) -> MetricsDailyItemData {
        MetricsDailyItemData {
            date: self.date@,
            day: self.day as int,
            count_traces: self.count_traces as int,
            count_observations: self.count_observations as int,
            total_cost: self.total_cost as int,
            usage: Seq::new(self.usage@.len(), |i: int| self.usage@[i]@),
        }
    }
}

/// One day's report row.
pub open spec fn spec_daily_item(
    st: StoreData,
    q: MetricsDailyQueryData,
    d: Seq<char>,
    from: Timestamp,
    to: Timestamp,
    day: int,
) -> MetricsDailyItemData {
    MetricsDailyItemData {
        date: spec_date_string(day),
        day: day,
        count_traces: count_traces_from(st.traces, q, d, from, to, day, 0),
        count_observations: count_obs_from(st, q, d, from, to, day, 0),
        total_cost: sum_cost_from(st.traces, q, d, from, to, day, 0),
        usage: spec_usage_array(st, q, d, from, to, day),
    }
}

fn count_traces_exec(
    store: &Store,
    q: &MetricsDailyQuery,
    d: &String,
    from: Timestamp,
    to: Timestamp,
    day: i64,
) -> (r: i64)
    requires
        store.traces@.len() <= 0x1_0000_0000,
    ensures
        r == count_traces_from(store@.traces, q@, d@, from, to, day as int, 0),
{
    let ghost rows = store@.traces;
    let n = store.traces.len();
    let mut acc: i64 = 0;
    let mut i: usize = 0;
    while i < n
        invariant
            0 <= i <= n,
            n == store.traces@.len(),
            n <= 0x1_0000_0000,
            rows == store@.traces,
            0 <= acc <= i,
            count_traces_from(rows, q@, d@, from, to, day as int, 0) == acc
                + count_traces_from(rows, q@, d@, from, to, day as int, i as int),
        decreases n - i,
    {
        let m = rollup_row_matches(&store.traces[i], q, d, from, to);
        if m {
            let dd = day_of_exec(store.traces[i].timestamp);
            if dd == day {
                acc = acc + 1;
            }
        }
        i = i + 1;
    }
    acc
}

fn sum_cost_exec(
    store: &Store,
    q: &MetricsDailyQuery,
    d: &String,
    from: Timestamp,
    to: Timestamp,
    day: i64,
) -> (r: i128)
    requires
        store.traces@.len() <= 0x1_0000_0000,
    ensures
        r == sum_cost_from(store@.traces, q@, d@, from, to, day as int, 0),
{
    let ghost rows = store@.traces;
    let n = store.traces.len();
    let mut acc: i128 = 0;
    let mut i: usize = 0;
    while i < n
        invariant
            0 <= i <= n,
            n == store.traces@.len(),
            n <= 0x1_0000_0000,
            rows == store@.traces,
            -(i as int) * 0x8000_0000_0000_0000 <= acc <= (i as int) * 0x8000_0000_0000_0000,
            sum_cost_from(rows, q@, d@, from, to, day as int, 0) == acc + sum_cost_from(
                rows,
                q@,
                d@,
                from,
                to,
                day as int,
                i as int,
            ),
        decreases n - i,
    {
        proof {
            assert((i as int + 1) * 0x8000_0000_0000_0000 == (i as int) * 0x8000_0000_0000_0000
                + 0x8000_0000_0000_0000) by (nonlinear_arith);
            assert((i as int) * 0x8000_0000_0000_0000 <= 0x1_0000_0000 * 0x8000_0000_0000_0000)
                by (nonlinear_arith)
                requires
                    0 <= i as int <= 0x1_0000_0000,
            ;
        }
        let m = rollup_row_matches(&store.traces[i], q, d, from, to);
        if m {
            let dd = day_of_exec(store.traces[i].timestamp);
            if dd == day {
                match store.traces[i].total_cost {
                    Some(c) => {
                        acc = acc + c as i128;
                    },
                    None => {},
                }
            }
        }
        i = i + 1;
    }
    acc
}

fn trace_joins(
    store: &Store,
    q: &MetricsDailyQuery,
    d: &String,
    from: Timestamp,
    to: Timestamp,
    day: i64,
    tid: UuidVal,
) -> (r: bool)
    ensures
        r == (match trace_row_of(store@.traces, tid) {
            Some(t) => rollup_matches(t, q@, d@, from, to) && day_of(t.timestamp) == day as int,
            None => false,
        }),
{
    match store.find_trace(tid) {
        Some(t) => {
            let m = rollup_row_matches(t, q, d, from, to);
            if m {
                let dd = day_of_exec(t.timestamp);
                dd == day
            } else {
                false
            }
        },
        None => false,
    }
}

fn count_obs_exec(
    store: &Store,
    q: &MetricsDailyQuery,
    d: &String,
    from: Timestamp,
    to: Timestamp,
    day: i64,
) -> (r: i64)
    requires
        store.observations@.len() <= 0x1_0000_0000,
    ensures
        r == count_obs_from(store@, q@, d@, from, to, day as int, 0),
{
    let ghost st = store@;
    let n = store.observations.len();
    let mut acc: i64 = 0;
    let mut i: usize = 0;
    while i < n
        invariant
            0 <= i <= n,
            n == store.observations@.len(),
            n <= 0x1_0000_0000,
            st == store@,
            0 <= acc <= i,
            count_obs_from(st, q@, d@, from, to, day as int, 0) == acc + count_obs_from(
                st,
                q@,
                d@,
                from,
                to,
                day as int,
                i as int,
            ),
        decreases n - i,
    {
        let j = trace_joins(store, q, d, from, to, day, store.observations[i].trace_id);
        if j {
            acc = acc + 1;
        }
        i = i + 1;
    }
    acc
}

fn obs_in_breakdown_exec(
    store: &Store,
    q: &MetricsDailyQuery,
    d: &String,
    from: Timestamp,
    to: Timestamp,
    day: i64,
    i: usize,
) -> (r: bool)
    requires
        i < store.observations@.len(),
    ensures
        r == obs_in_breakdown(store@, q@, d@, from, to, day as int, store@.observations[i as int]),
{
    let j = trace_joins(store, q, d, from, to, day, store.observations[i].trace_id);
    j && str_eq(store.observations[i].obs_type.as_str(), "GENERATION")
}

fn model_name_of(o: &crate::store::ObservationRow) -> (r: String)
    ensures
        r@ == model_of_obs(o@),
{
    match &o.model {
        Some(m) => m.clone(),
        None => "unknown".to_owned(),
    }
}

fn models_exec(
    store: &Store,
    q: &MetricsDailyQuery,
    d: &String,
    from: Timestamp,
    to: Timestamp,
    day: i64,
) -> (r: Vec<String>)
    ensures
        string_vec_view(r@) == models_from(
            Seq::empty(),
            store@,
            q@,
            d@,
            from,
            to,
            day as int,
            0,
        ),
{
    let ghost st = store@;
    let n = store.observations.len();
    let mut out: Vec<String> = Vec::new();
    let mut i: usize = 0;
    proof {
        assert(string_vec_view(out@) =~= Seq::<Seq<char>>::empty());
    }
    while i < n
        invariant
            0 <= i <= n,
            n == store.observations@.len(),
            st == store@,
            models_from(Seq::empty(), st, q@, d@, from, to, day as int, 0) == models_from(
                string_vec_view(out@),
                st,
                q@,
                d@,
                from,
                to,
                day as int,
                i as int,
            ),
        decreases n - i,
    {
        let keep = obs_in_breakdown_exec(store, q, d, from, to, day, i);
        if keep {
            let name = model_name_of(&store.observations[i]);
            let mut have = false;
            let nm = out.len();
            let mut k: usize = 0;
            while k < nm
                invariant
                    0 <= k <= nm,
                    nm == out@.len(),
                    name@ == model_of_obs(st.observations[i as int]),
                    !have ==> forall|j: int|
                        0 <= j < k ==> string_vec_view(out@)[j] != name@,
                    have ==> string_vec_view(out@).contains(name@),
                decreases nm - k,
            {
                if str_eq(out[k].as_str(), name.as_str()) {
                    proof {
                        assert(string_vec_view(out@)[k as int] == name@);
                    }
                    have = true;
                }
                k = k + 1;
            }
            if !have {
                proof {
                    assert(!string_vec_view(out@).contains(name@));
                }
                let ghost v0 = string_vec_view(out@);
                out.push(name);
                proof {
                    assert(string_vec_view(out@) =~= v0.push(
                        model_of_obs(st.observations[i as int]),
                    ));
                }
            } else {
                proof {
                    assert(string_vec_view(out@).contains(
                        model_of_obs(st.observations[i as int]),
                    ));
                }
            }
        }
        i = i + 1;
    }
    out
}

fn sum_tokens_exec(
    store: &Store,
    q: &MetricsDailyQuery,
    d: &String,
    from: Timestamp,
    to: Timestamp,
    day: i64,
    name: &String,
    which: u8,
) -> (r: i128)
    requires
        store.observations@.len() <= 0x1_0000_0000,
        which < 3,
    ensures
        r == sum_tokens_from(store@, q@, d@, from, to, day as int, name@, which as int, 0),
{
    let ghost st = store@;
    let n = store.observations.len();
    let mut acc: i128 = 0;
    let mut i: usize = 0;
    while i < n
        invariant
            0 <= i <= n,
            n == store.observations@.len(),
            n <= 0x1_0000_0000,
            st == store@,
            which < 3,
            -(i as int) * 0x8000_0000_0000_0000 <= acc <= (i as int) * 0x8000_0000_0000_0000,
            sum_tokens_from(st, q@, d@, from, to, day as int, name@, which as int, 0) == acc
                + sum_tokens_from(st, q@, d@, from, to, day as int, name@, which as int, i as int),
        decreases n - i,
    {
        proof {
            assert((i as int + 1) * 0x8000_0000_0000_0000 == (i as int) * 0x8000_0000_0000_0000
                + 0x8000_0000_0000_0000) by (nonlinear_arith);
            assert((i as int) * 0x8000_0000_0000_0000 <= 0x1_0000_0000 * 0x8000_0000_0000_0000)
                by (nonlinear_arith)
                requires
                    0 <= i as int <= 0x1_0000_0000,
            ;
        }
        let keep = obs_in_breakdown_exec(store, q, d, from, to, day, i);
        if keep {
            let nm = model_name_of(&store.observations[i]);
            if str_eq(nm.as_str(), name.as_str()) {
                let v: Option<i64> = if which == 0 {
                    store.observations[i].prompt_tokens
                } else if which == 1 {
                    store.observations[i].completion_tokens
                } else {
                    store.observations[i].total_tokens
                };
                match v {
                    Some(c) => {
                        acc = acc + c as i128;
                    },
                    None => {},
                }
            }
        }
        i = i + 1;
    }
    acc
}

fn sum_model_cost_exec(
    store: &Store,
    q: &MetricsDailyQuery,
    d: &String,
    from: Timestamp,
    to: Timestamp,
    day: i64,
    name: &String,
) -> (r: i128)
    requires
        store.observations@.len() <= 0x1_0000_0000,
    ensures
        r == sum_model_cost_from(store@, q@, d@, from, to, day as int, name@, 0),
{
    let ghost st = store@;
    let n = store.observations.len();
    let mut acc: i128 = 0;
    let mut i: usize = 0;
    while i < n
        invariant
            0 <= i <= n,
            n == store.observations@.len(),
            n <= 0x1_0000_0000,
            st == store@,
            -(i as int) * 0x8000_0000_0000_0000 <= acc <= (i as int) * 0x8000_0000_0000_0000,
            sum_model_cost_from(st, q@, d@, from, to, day as int, name@, 0) == acc
                + sum_model_cost_from(st, q@, d@, from, to, day as int, name@, i as int),
        decreases n - i,
    {
        proof {
            assert((i as int + 1) * 0x8000_0000_0000_0000 == (i as int) * 0x8000_0000_0000_0000
                + 0x8000_0000_0000_0000) by (nonlinear_arith);
            assert((i as int) * 0x8000_0000_0000_0000 <= 0x1_0000_0000 * 0x8000_0000_0000_0000)
                by (nonlinear_arith)
                requires
                    0 <= i as int <= 0x1_0000_0000,
            ;
        }
        let keep = obs_in_breakdown_exec(store, q, d, from, to, day, i);
        if keep {
            let nm = model_name_of(&store.observations[i]);
            if str_eq(nm.as_str(), name.as_str()) {
                match store.observations[i].calculated_total_cost {
                    Some(c) => {
                        acc = acc + c as i128;
                    },
                    None => {},
                }
            }
        }
        i = i + 1;
    }
    acc
}

fn count_model_obs_exec(
    store: &Store,
    q: &MetricsDailyQuery,
    d: &String,
    from: Timestamp,
    to: Timestamp,
    day: i64,
    name: &String,
) -> (r: i64)
    requires
        store.observations@.len() <= 0x1_0000_0000,
    ensures
        r == count_model_obs_from(store@, q@, d@, from, to, day as int, name@, 0),
{
    let ghost st = store@;
    let n = store.observations.len();
    let mut acc: i64 = 0;
    let mut i: usize = 0;
    while i < n
        invariant
            0 <= i <= n,
            n == store.observations@.len(),
            n <= 0x1_0000_0000,
            st == store@,
            0 <= acc <= i,
            count_model_obs_from(st, q@, d@, from, to, day as int, name@, 0) == acc
                + count_model_obs_from(st, q@, d@, from, to, day as int, name@, i as int),
        decreases n - i,
    {
        let keep = obs_in_breakdown_exec(store, q, d, from, to, day, i);
        if keep {
            let nm = model_name_of(&store.observations[i]);
            if str_eq(nm.as_str(), name.as_str()) {
                acc = acc + 1;
            }
        }
        i = i + 1;
    }
    acc
}

fn count_model_traces_exec(
    store: &Store,
    q: &MetricsDailyQuery,
    d: &String,
    from: Timestamp,
    to: Timestamp,
    day: i64,
    name: &String,
) -> (r: i64)
    requires
        store.observations@.len() <= 0x1_0000_0000,
    ensures
        r == model_trace_ids_from(
            Seq::empty(),
            store@,
            q@,
            d@,
            from,
            to,
            day as int,
            name@,
            0,
        ).len(),
{
    let ghost st = store@;
    let n = store.observations.len();
    let mut seen: Vec<UuidVal> = Vec::new();
    let mut i: usize = 0;
    proof {
        assert(seen@ =~= Seq::<UuidVal>::empty());
    }
    while i < n
        invariant
            0 <= i <= n,
            n == store.observations@.len(),
            n <= 0x1_0000_0000,
            st == store@,
            seen@.len() <= i,
            model_trace_ids_from(Seq::empty(), st, q@, d@, from, to, day as int, name@, 0)
                == model_trace_ids_from(seen@, st, q@, d@, from, to, day as int, name@, i as int),
        decreases n - i,
    {
        let keep = obs_in_breakdown_exec(store, q, d, from, to, day, i);
        if keep {
            let nm = model_name_of(&store.observations[i]);
            if str_eq(nm.as_str(), name.as_str()) {
                let tid = store.observations[i].trace_id;
                let mut have = false;
                let ns = seen.len();
                let mut k: usize = 0;
                while k < ns
                    invariant
                        0 <= k <= ns,
                        ns == seen@.len(),
                        !have ==> forall|j: int| 0 <= j < k ==> seen@[j] != tid,
                        have ==> seen@.contains(tid),
                    decreases ns - k,
                {
                    if seen[k] == tid {
                        have = true;
                    }
                    k = k + 1;
                }
                if !have {
                    proof {
                        assert(!seen@.contains(tid));
                    }
                    seen.push(tid);
                }
            }
        }
        i = i + 1;
    }
    seen.len() as i64
}

proof fn lemma_usage_insert_at(x: ModelUsageRowData, s: Seq<ModelUsageRowData>, p: int)
    requires
        0 <= p <= s.len(),
        forall|j: int| 0 <= j < p ==> !(x.total_cost > (#[trigger] s[j]).total_cost),
        p < s.len() ==> x.total_cost > s[p].total_cost,
    ensures
        usage_insert(x, s) == s.take(p) + seq![x] + s.skip(p),
    decreases p,
{
    if s.len() == 0 {
        assert(usage_insert(x, s) =~= s.take(p) + seq![x] + s.skip(p));
    } else if p == 0 {
        assert(usage_insert(x, s) =~= s.take(0) + seq![x] + s.skip(0));
    } else {
        lemma_usage_insert_at(x, s.drop_first(), p - 1);
        assert(s.drop_first().take(p - 1) =~= s.take(p).drop_first());
        assert(s.drop_first().skip(p - 1) =~= s.skip(p));
        assert(usage_insert(x, s) =~= s.take(p) + seq![x] + s.skip(p));
    }
}

fn usage_insert_exec(acc: &mut Vec<ModelUsageRow>, x: ModelUsageRow)
    ensures
        Seq::new(final(acc)@.len(), |i: int| final(acc)@[i]@) == usage_insert(
            x@,
            Seq::new(old(acc)@.len(), |i: int| old(acc)@[i]@),
        ),
{
    let ghost s0 = Seq::new(acc@.len(), |i: int| acc@[i]@);
    let n = acc.len();
    let ghost xv = x@;
    let mut p: usize = 0;
    while p < n
        invariant
            0 <= p <= n,
            n == acc@.len(),
            acc@ == old(acc)@,
            s0 == Seq::new(acc@.len(), |i: int| acc@[i]@),
            xv == x@,
            forall|j: int| 0 <= j < p ==> !(xv.total_cost > (#[trigger] s0[j]).total_cost),
        decreases n - p,
    {
        if x.total_cost > acc[p].total_cost {
            proof {
                lemma_usage_insert_at(xv, s0, p as int);
            }
            acc.insert(p, x);
            proof {
                assert(Seq::new(acc@.len(), |i: int| acc@[i]@) =~= s0.take(p as int) + seq![xv]
                    + s0.skip(p as int));
            }
            return;
        }
        p = p + 1;
    }
    proof {
        lemma_usage_insert_at(xv, s0, n as int);
    }
    acc.insert(n, x);
    proof {
        assert(Seq::new(acc@.len(), |i: int| acc@[i]@) =~= s0.take(n as int) + seq![xv] + s0.skip(
            n as int,
        ));
    }
}

fn build_usage_array(
    store: &Store,
    q: &MetricsDailyQuery,
    d: &String,
    from: Timestamp,
    to: Timestamp,
    day: i64,
) -> (r: Vec<ModelUsageRow>)
    requires
        store.observations@.len() <= 0x1_0000_0000,
    ensures
        Seq::new(r@.len(), |i: int| r@[i]@) == spec_usage_array(
            store@,
            q@,
            d@,
            from,
            to,
            day as int,
        ),
{
    let ghost st = store@;
    let models = models_exec(store, q, d, from, to, day);
    let ghost mnames = models_from(Seq::empty(), st, q@, d@, from, to, day as int, 0);
    let ghost rows_spec = Seq::new(
        mnames.len(),
        |i: int| spec_model_row(st, q@, d@, from, to, day as int, mnames[i]),
    );
    let mut out: Vec<ModelUsageRow> = Vec::new();
    let n = models.len();
    let mut i: usize = 0;
    proof {
        assert(Seq::new(out@.len(), |k: int| out@[k]@) =~= Seq::<ModelUsageRowData>::empty());
        assert(rows_spec.skip(0) =~= rows_spec);
    }
    while i < n
        invariant
            0 <= i <= n,
            n == models@.len(),
            st == store@,
            store.observations@.len() <= 0x1_0000_0000,
            mnames == string_vec_view(models@),
            rows_spec == Seq::new(
                mnames.len(),
                |k: int| spec_model_row(st, q@, d@, from, to, day as int, mnames[k]),
            ),
            usage_sort_from(Seq::empty(), rows_spec) == usage_sort_from(
                Seq::new(out@.len(), |k: int| out@[k]@),
                rows_spec.skip(i as int),
            ),
        decreases n - i,
    {
        proof {
            assert(rows_spec.skip(i as int).first() == rows_spec[i as int]);
            assert(rows_spec.skip(i as int).drop_first() =~= rows_spec.skip(i + 1));
        }
        let name = &models[i];
        let row = ModelUsageRow {
            model: name.clone(),
            input_usage: sum_tokens_exec(store, q, d, from, to, day, name, 0),
            output_usage: sum_tokens_exec(store, q, d, from, to, day, name, 1),
            total_usage: sum_tokens_exec(store, q, d, from, to, day, name, 2),
            count_traces: count_model_traces_exec(store, q, d, from, to, day, name),
            count_observations: count_model_obs_exec(store, q, d, from, to, day, name),
            total_cost: sum_model_cost_exec(store, q, d, from, to, day, name),
        };
        proof {
            assert(row@ =~= rows_spec[i as int]);
        }
        usage_insert_exec(&mut out, row);
        i = i + 1;
    }
    proof {
        assert(rows_spec.skip(n as int) =~= Seq::<ModelUsageRowData>::empty());
    }
    out
}

/// The daily-metrics query: distinct days of the filtered traces, newest
/// first and paginated; for each reported day the trace count, joined
/// observation count, summed trace cost and the per-model usage breakdown
/// sorted by cost, descending.
pub fn get_metrics_daily(
    store: &Store,
    q: &MetricsDailyQuery,
    default_project_id: &String,
    now: Timestamp,
) -> (r: PagedData<MetricsDailyItem>)
    requires
        store.traces@.len() <= 0x1_0000_0000,
        store.observations@.len() <= 0x1_0000_0000,
    ensures
        ({
            let range = resolved_range(q@, now);
            let days = rollup_days(store@, q@, default_project_id@, range.0, range.1);
            let page = spec_page_number(q@.page);
            let limit = spec_page_limit(q@.limit);
            let slice = spec_page_slice(days, page, limit);
            &&& r.meta.page == page
            &&& r.meta.limit == limit
            &&& r.meta.total_items == days.len()
            &&& r.meta.total_pages == spec_total_pages(days.len() as int, limit)
            &&& r.data@.len() == slice.len()
            &&& forall|k: int|
                0 <= k < slice.len() ==> (#[trigger] r.data@[k]@) == spec_daily_item(
                    store@,
                    q@,
                    default_project_id@,
                    range.0,
                    range.1,
                    slice[k],
                )
        }),
{
    let to = match q.to_timestamp {
        Some(t) => t,
        None => now,
    };
    let from = match q.from_timestamp {
        Some(f) => f,
        None => Timestamp {
            secs: if to.secs < i64::MIN + 2_592_000 {
                i64::MIN
            } else {
                to.secs - 2_592_000
            },
            nanos: to.nanos,
        },
    };
    let (page, limit) = resolve_page(q.page, q.limit);
    let ghost rows = store@.traces;
    let mut days: Vec<i64> = Vec::new();
    let n = store.traces.len();
    let mut i: usize = 0;
    proof {
        assert(idxs64_view(days@) =~= Seq::<int>::empty());
    }
    while i < n
        invariant
            0 <= i <= n,
            n == store.traces@.len(),
            rows == store@.traces,
            days_from(Seq::empty(), rows, q@, default_project_id@, from, to, 0) == days_from(
                idxs64_view(days@),
                rows,
                q@,
                default_project_id@,
                from,
                to,
                i as int,
            ),
            forall|j: int|
                0 <= j < days@.len() ==> -106_751_991_167_302 <= (#[trigger] days@[j])
                    <= 106_751_991_167_302,
        decreases n - i,
    {
        let m = rollup_row_matches(&store.traces[i], q, default_project_id, from, to);
        if m {
            let dd = day_of_exec(store.traces[i].timestamp);
            let ghost s0 = idxs64_view(days@);
            insert_day(&mut days, dd);
            proof {
                lemma_insert_day_elems(dd as int, s0);
                assert forall|j: int|
                    0 <= j < days@.len() implies -106_751_991_167_302 <= (#[trigger] days@[j])
                        <= 106_751_991_167_302 by {
                    assert(idxs64_view(days@)[j] == days@[j] as int);
                    if idxs64_view(days@)[j] != dd as int {
                        assert(s0.contains(idxs64_view(days@)[j]));
                    }
                }
            }
        }
        i = i + 1;
    }
    let ghost dayseq = rollup_days(store@, q@, default_project_id@, from, to);
    proof {
        lemma_days_len(Seq::empty(), rows, q@, default_project_id@, from, to, 0);
        assert(dayseq == idxs64_view(days@));
    }
    let total = days.len();
    let tp = total_pages(total as i64, limit);
    let mut out: Vec<MetricsDailyItem> = Vec::new();
    let ghost slice = spec_page_slice(dayseq, page as int, limit as int);
    proof {
        assert((page as i128 - 1) * (limit as i128) == (page as int - 1) * (limit as int)
            && 0 <= (page as int - 1) * (limit as int) <= 0x7fff_ffff_ffff_ffff * 200)
            by (nonlinear_arith)
            requires
                1 <= page <= 0x7fff_ffff_ffff_ffff,
                1 <= limit <= 200,
        ;
    }
    let off128: i128 = (page as i128 - 1) * (limit as i128);
    let ghost off_int = (page as int - 1) * (limit as int);
    let no = days.len();
    if off128 < no as i128 {
        let off: usize = off128 as usize;
        let upper: usize = if no - off < limit as usize {
            no
        } else {
            off + limit as usize
        };
        proof {
            if off + limit <= no {
                assert(slice =~= dayseq.subrange(off as int, off + limit));
            } else {
                assert(slice =~= dayseq.subrange(off as int, no as int));
            }
        }
        let mut k: usize = off;
        while k < upper
            invariant
                off <= k <= upper <= no,
                no == days@.len(),
                store.traces@.len() <= 0x1_0000_0000,
                store.observations@.len() <= 0x1_0000_0000,
                dayseq == idxs64_view(days@),
                slice == dayseq.subrange(off as int, upper as int),
                out@.len() == k - off,
                forall|j: int|
                    0 <= j < days@.len() ==> -106_751_991_167_302 <= (#[trigger] days@[j])
                        <= 106_751_991_167_302,
                forall|j: int|
                    0 <= j < out@.len() ==> (#[trigger] out@[j]@) == spec_daily_item(
                        store@,
                        q@,
                        default_project_id@,
                        from,
                        to,
                        slice[j],
                    ),
            decreases upper - k,
        {
            let day = days[k];
            let item = MetricsDailyItem {
                date: date_string(day),
                day: day,
                count_traces: count_traces_exec(store, q, default_project_id, from, to, day),
                count_observations: count_obs_exec(store, q, default_project_id, from, to, day),
                total_cost: sum_cost_exec(store, q, default_project_id, from, to, day),
                usage: build_usage_array(store, q, default_project_id, from, to, day),
            };
            proof {
                assert(item@ =~= spec_daily_item(
                    store@,
                    q@,
                    default_project_id@,
                    from,
                    to,
                    day as int,
                ));
            }
            out.push(item);
            k = k + 1;
        }
    } else {
        proof {
            assert(slice =~= Seq::<int>::empty());
        }
    }
    PagedData {
        data: out,
        meta: PageMeta { page, limit, total_items: total as i64, total_pages: tp },
    }
}

/// The day list is no longer than the trace list.
proof fn lemma_days_len(
    acc: Seq<int>,
    rows: Seq<TraceRowData>,
    q: MetricsDailyQueryData,
    d: Seq<char>,
    from: Timestamp,
    to: Timestamp,
    i: int,
)
    requires
        0 <= i <= rows.len(),
    ensures
        days_from(acc, rows, q, d, from, to, i).len() <= acc.len() + rows.len() - i,
    decreases rows.len() - i,
{
    if i < rows.len() {
        if rollup_matches(rows[i], q, d, from, to) {
            lemma_insert_day_len(day_of(rows[i].timestamp), acc);
            lemma_days_len(
                insert_day_desc(day_of(rows[i].timestamp), acc),
                rows,
                q,
                d,
                from,
                to,
                i + 1,
            );
        } else {
            lemma_days_len(acc, rows, q, d, from, to, i + 1);
        }
    }
}

proof fn lemma_insert_day_len(x: int, s: Seq<int>)
    ensures
        insert_day_desc(x, s).len() <= s.len() + 1,
    decreases s.len(),
{
    if s.len() > 0 && !(x > s.first()) && x != s.first() {
        lemma_insert_day_len(x, s.drop_first());
    }
}


} // verus!
