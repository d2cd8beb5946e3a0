//! The persisted store: trace and observation rows keyed by identifier, and
//! the idempotent insert-or-update semantics of the write path.

use vstd::prelude::*;

use crate::codec::{Timestamp, UuidVal};
use crate::ingest::{
    BatchIngestRequest, BatchIngestData, ObservationIngest, ObservationIngestData, TraceIngest,
    TraceIngestData, clone_opt_json, clone_opt_string, clone_vec_string, view_opt_json,
    view_opt_str,
};
use crate::json::{JsonData, JsonVal};
use crate::otlp::string_vec_view;

verus! {

/// The string, or a default when absent.
pub open spec fn opt_str_or(o: Option<Seq<char>>, d: Seq<char>) -> Seq<char> {
    match o {
        Some(s) => s,
        None => d,
    }
}

/// The instant, or a default when absent.
pub open spec fn opt_ts_or(o: Option<Timestamp>, d: Timestamp) -> Timestamp {
    match o {
        Some(t) => t,
        None => d,
    }
}

/// The flag, or a default when absent.
pub open spec fn opt_bool_or(o: Option<bool>, d: bool) -> bool {
    match o {
        Some(b) => b,
        None => d,
    }
}

/// The configured default environment name.
pub fn default_environment() -> (r: String)
    ensures
        r@ == "default"@,
{
    "default".to_owned()
}

/// The default observation type.
pub fn generation_type() -> (r: String)
    ensures
        r@ == "GENERATION"@,
{
    "GENERATION".to_owned()
}

fn opt_string_or(o: &Option<String>, d: &String) -> (r: String)
    ensures
        r@ == opt_str_or(view_opt_str(*o), d@),
{
    match o {
        Some(s) => s.clone(),
        None => d.clone(),
    }
}

fn opt_bool_or_false(o: &Option<bool>) -> (r: bool)
    ensures
        r == opt_bool_or(*o, false),
{
    match o {
        Some(b) => *b,
        None => false,
    }
}

/// One persisted trace row.
pub struct TraceRow {
    pub id: UuidVal,
    pub project_id: String,
    pub environment: String,
    pub timestamp: Timestamp,
    pub name: Option<String>,
    pub input: Option<JsonVal>,
    pub output: Option<JsonVal>,
    pub session_id: Option<String>,
    pub release: Option<String>,
    pub version: Option<String>,
    pub user_id: Option<String>,
    pub metadata: Option<JsonVal>,
    pub tags: Vec<String>,
    pub public: bool,
    pub external_id: Option<String>,
    pub bookmarked: bool,
    pub latency: Option<i64>,
    pub total_cost: Option<i64>,
    pub created_at: Timestamp,
    pub updated_at: Timestamp,
}

/// The mathematical value of a [`TraceRow`].
#[verifier::ext_equal]
pub struct TraceRowData {
    pub id: UuidVal,
    pub project_id: Seq<char>,
    pub environment: Seq<char>,
    pub timestamp: Timestamp,
    pub name: Option<Seq<char>>,
    pub input: Option<JsonData>,
    pub output: Option<JsonData>,
    pub session_id: Option<Seq<char>>,
    pub release: Option<Seq<char>>,
    pub version: Option<Seq<char>>,
    pub user_id: Option<Seq<char>>,
    pub metadata: Option<JsonData>,
    pub tags: Seq<Seq<char>>,
    pub public: bool,
    pub external_id: Option<Seq<char>>,
    pub bookmarked: bool,
    pub latency: Option<i64>,
    pub total_cost: Option<i64>,
    pub created_at: Timestamp,
    pub updated_at: Timestamp,
}

impl View for TraceRow {
    type V = TraceRowData;

    open spec fn view(&self) -> TraceRowData {
        TraceRowData {
            id: self.id,
            project_id: self.project_id@,
            environment: self.environment@,
            timestamp: self.timestamp,
            name: view_opt_str(self.name),
            input: view_opt_json(&self.input),
            output: view_opt_json(&self.output),
            session_id: view_opt_str(self.session_id),
            release: view_opt_str(self.release),
            version: view_opt_str(self.version),
            user_id: view_opt_str(self.user_id),
            metadata: view_opt_json(&self.metadata),
            tags: string_vec_view(self.tags@),
            public: self.public,
            external_id: view_opt_str(self.external_id),
            bookmarked: self.bookmarked,
            latency: self.latency,
            total_cost: self.total_cost,
            created_at: self.created_at,
            updated_at: self.updated_at,
        }
    }
}

/// One persisted observation row.
pub struct ObservationRow {
    pub id: UuidVal,
    pub trace_id: UuidVal,
    pub obs_type: String,
    pub name: Option<String>,
    pub start_time: Option<Timestamp>,
    pub end_time: Option<Timestamp>,
    pub completion_start_time: Option<Timestamp>,
    pub model: Option<String>,
    pub model_parameters: Option<JsonVal>,
    pub input: Option<JsonVal>,
    pub output: Option<JsonVal>,
    pub usage: Option<JsonVal>,
    pub level: Option<String>,
    pub status_message: Option<String>,
    pub parent_observation_id: Option<UuidVal>,
    pub prompt_id: Option<String>,
    pub prompt_name: Option<String>,
    pub prompt_version: Option<String>,
    pub model_id: Option<String>,
    pub input_price: Option<i64>,
    pub output_price: Option<i64>,
    pub total_price: Option<i64>,
    pub calculated_input_cost: Option<i64>,
    pub calculated_output_cost: Option<i64>,
    pub calculated_total_cost: Option<i64>,
    pub latency: Option<i64>,
    pub time_to_first_token: Option<i64>,
    pub completion_tokens: Option<i64>,
    pub prompt_tokens: Option<i64>,
    pub total_tokens: Option<i64>,
    pub unit: Option<String>,
    pub metadata: Option<JsonVal>,
    pub environment: String,
    pub project_id: String,
    pub created_at: Timestamp,
    pub updated_at: Timestamp,
}

/// The mathematical value of a [`ObservationRow`].
#[verifier::ext_equal]
pub struct ObservationRowData {
    pub id: UuidVal,
    pub trace_id: UuidVal,
    pub obs_type: Seq<char>,
    pub name: Option<Seq<char>>,
    pub start_time: Option<Timestamp>,
    pub end_time: Option<Timestamp>,
    pub completion_start_time: Option<Timestamp>,
    pub model: Option<Seq<char>>,
    pub model_parameters: Option<JsonData>,
    pub input: Option<JsonData>,
    pub output: Option<JsonData>,
    pub usage: Option<JsonData>,
    pub level: Option<Seq<char>>,
    pub status_message: Option<Seq<char>>,
    pub parent_observation_id: Option<UuidVal>,
    pub prompt_id: Option<Seq<char>>,
    pub prompt_name: Option<Seq<char>>,
    pub prompt_version: Option<Seq<char>>,
    pub model_id: Option<Seq<char>>,
    pub input_price: Option<i64>,
    pub output_price: Option<i64>,
    pub total_price: Option<i64>,
    pub calculated_input_cost: Option<i64>,
    pub calculated_output_cost: Option<i64>,
    pub calculated_total_cost: Option<i64>,
    pub latency: Option<i64>,
    pub time_to_first_token: Option<i64>,
    pub completion_tokens: Option<i64>,
    pub prompt_tokens: Option<i64>,
    pub total_tokens: Option<i64>,
    pub unit: Option<Seq<char>>,
    pub metadata: Option<JsonData>,
    pub environment: Seq<char>,
    pub project_id: Seq<char>,
    pub created_at: Timestamp,
    pub updated_at: Timestamp,
}

impl View for ObservationRow {
    type V = ObservationRowData;

    open spec fn view(&self) -> ObservationRowData {
        ObservationRowData {
            id: self.id,
            trace_id: self.trace_id,
            obs_type: self.obs_type@,
            name: view_opt_str(self.name),
            start_time: self.start_time,
            end_time: self.end_time,
            completion_start_time: self.completion_start_time,
            model: view_opt_str(self.model),
            model_parameters: view_opt_json(&self.model_parameters),
            input: view_opt_json(&self.input),
            output: view_opt_json(&self.output),
            usage: view_opt_json(&self.usage),
            level: view_opt_str(self.level),
            status_message: view_opt_str(self.status_message),
            parent_observation_id: self.parent_observation_id,
            prompt_id: view_opt_str(self.prompt_id),
            prompt_name: view_opt_str(self.prompt_name),
            prompt_version: view_opt_str(self.prompt_version),
            model_id: view_opt_str(self.model_id),
            input_price: self.input_price,
            output_price: self.output_price,
            total_price: self.total_price,
            calculated_input_cost: self.calculated_input_cost,
            calculated_output_cost: self.calculated_output_cost,
            calculated_total_cost: self.calculated_total_cost,
            latency: self.latency,
            time_to_first_token: self.time_to_first_token,
            completion_tokens: self.completion_tokens,
            prompt_tokens: self.prompt_tokens,
            total_tokens: self.total_tokens,
            unit: view_opt_str(self.unit),
            metadata: view_opt_json(&self.metadata),
            environment: self.environment@,
            project_id: self.project_id@,
            created_at: self.created_at,
            updated_at: self.updated_at,
        }
    }
}

/// The trace row an upsert writes: every persisted column replaced from the
/// payload, defaults applied, `created_at` as given.
pub open spec fn trace_row_from(t: TraceIngestData, d: Seq<char>, now: Timestamp, created: Timestamp) -> TraceRowData {
    TraceRowData {
        id: t.id,
        project_id: opt_str_or(t.project_id, d),
        environment: opt_str_or(t.environment, "default"@),
        timestamp: opt_ts_or(t.timestamp, now),
        name: t.name,
        input: t.input,
        output: t.output,
        session_id: t.session_id,
        release: t.release,
        version: t.version,
        user_id: t.user_id,
        metadata: t.metadata,
        tags: t.tags,
        public: opt_bool_or(t.public, false),
        external_id: t.external_id,
        bookmarked: opt_bool_or(t.bookmarked, false),
        latency: t.latency,
        total_cost: t.total_cost,
        created_at: created,
        updated_at: now,
    }
}

/// The observation row an upsert writes: every column from the payload with
/// defaults applied, `created_at` as given.
pub open spec fn obs_row_from(o: ObservationIngestData, d: Seq<char>, now: Timestamp, created: Timestamp) -> ObservationRowData {
    ObservationRowData {
        id: o.id,
        trace_id: o.trace_id,
        obs_type: opt_str_or(o.obs_type, "GENERATION"@),
        name: o.name,
        start_time: o.start_time,
        end_time: o.end_time,
        completion_start_time: o.completion_start_time,
        model: o.model,
        model_parameters: o.model_parameters,
        input: o.input,
        output: o.output,
        usage: o.usage,
        level: o.level,
        status_message: o.status_message,
        parent_observation_id: o.parent_observation_id,
        prompt_id: o.prompt_id,
        prompt_name: o.prompt_name,
        prompt_version: o.prompt_version,
        model_id: o.model_id,
        input_price: o.input_price,
        output_price: o.output_price,
        total_price: o.total_price,
        calculated_input_cost: o.calculated_input_cost,
        calculated_output_cost: o.calculated_output_cost,
        calculated_total_cost: o.calculated_total_cost,
        latency: o.latency,
        time_to_first_token: o.time_to_first_token,
        completion_tokens: o.completion_tokens,
        prompt_tokens: o.prompt_tokens,
        total_tokens: o.total_tokens,
        unit: o.unit,
        metadata: o.metadata,
        environment: opt_str_or(o.environment, "default"@),
        project_id: opt_str_or(o.project_id, d),
        created_at: created,
        updated_at: now,
    }
}

/// Builds the row that upserting `t` writes.
pub fn trace_row_from_ingest(t: &TraceIngest, d: &String, now: Timestamp, created: Timestamp) -> (r: TraceRow)
    ensures
        r@ == trace_row_from(t@, d@, now, created),
{
    TraceRow {
        id: t.id,
        project_id: opt_string_or(&t.project_id, d),
        environment: opt_string_or(&t.environment, &default_environment()),
        timestamp: match t.timestamp { Some(ts) => ts, None => now },
        name: clone_opt_string(&t.name),
        input: clone_opt_json(&t.input),
        output: clone_opt_json(&t.output),
        session_id: clone_opt_string(&t.session_id),
        release: clone_opt_string(&t.release),
        version: clone_opt_string(&t.version),
        user_id: clone_opt_string(&t.user_id),
        metadata: clone_opt_json(&t.metadata),
        tags: clone_vec_string(&t.tags),
        public: opt_bool_or_false(&t.public),
        external_id: clone_opt_string(&t.external_id),
        bookmarked: opt_bool_or_false(&t.bookmarked),
        latency: t.latency,
        total_cost: t.total_cost,
        created_at: created,
        updated_at: now,
    }
}

/// Builds the row that upserting `o` writes.
pub fn obs_row_from_ingest(o: &ObservationIngest, d: &String, now: Timestamp, created: Timestamp) -> (r: ObservationRow)
    ensures
        r@ == obs_row_from(o@, d@, now, created),
{
    ObservationRow {
        id: o.id,
        trace_id: o.trace_id,
        obs_type: opt_string_or(&o.obs_type, &generation_type()),
        name: clone_opt_string(&o.name),
        start_time: o.start_time,
        end_time: o.end_time,
        completion_start_time: o.completion_start_time,
        model: clone_opt_string(&o.model),
        model_parameters: clone_opt_json(&o.model_parameters),
        input: clone_opt_json(&o.input),
        output: clone_opt_json(&o.output),
        usage: clone_opt_json(&o.usage),
        level: clone_opt_string(&o.level),
        status_message: clone_opt_string(&o.status_message),
        parent_observation_id: o.parent_observation_id,
        prompt_id: clone_opt_string(&o.prompt_id),
        prompt_name: clone_opt_string(&o.prompt_name),
        prompt_version: clone_opt_string(&o.prompt_version),
        model_id: clone_opt_string(&o.model_id),
        input_price: o.input_price,
        output_price: o.output_price,
        total_price: o.total_price,
        calculated_input_cost: o.calculated_input_cost,
        calculated_output_cost: o.calculated_output_cost,
        calculated_total_cost: o.calculated_total_cost,
        latency: o.latency,
        time_to_first_token: o.time_to_first_token,
        completion_tokens: o.completion_tokens,
        prompt_tokens: o.prompt_tokens,
        total_tokens: o.total_tokens,
        unit: clone_opt_string(&o.unit),
        metadata: clone_opt_json(&o.metadata),
        environment: opt_string_or(&o.environment, &default_environment()),
        project_id: opt_string_or(&o.project_id, d),
        created_at: created,
        updated_at: now,
    }
}

// --- store state ---------------------------------------------------------

/// The mathematical state of the store: the persisted rows, in insertion
/// order.
#[verifier::ext_equal]
pub struct StoreData {
    pub traces: Seq<TraceRowData>,
    pub observations: Seq<ObservationRowData>,
}

/// The views of a trace-row vector.
pub open spec fn trace_rows_view(v: Seq<TraceRow>) -> Seq<TraceRowData> {
    Seq::new(v.len(), |i: int| v[i]@)
}

/// The views of an observation-row vector.
pub open spec fn obs_rows_view(v: Seq<ObservationRow>) -> Seq<ObservationRowData> {
    Seq::new(v.len(), |i: int| v[i]@)
}

/// Row identifiers are unique.
pub open spec fn store_wf(st: StoreData) -> bool {
    &&& forall|i: int, j: int|
        0 <= i < j < st.traces.len() ==> (#[trigger] st.traces[i].id) != (#[trigger] st.traces[j].id)
    &&& forall|i: int, j: int|
        0 <= i < j < st.observations.len()
            ==> (#[trigger] st.observations[i].id) != (#[trigger] st.observations[j].id)
}

/// The first trace row carrying `id`, if any.
pub open spec fn trace_row_of(s: Seq<TraceRowData>, id: UuidVal) -> Option<TraceRowData>
    decreases s.len(),
{
    if s.len() == 0 {
        None
    } else if s.first().id == id {
        Some(s.first())
    } else {
        trace_row_of(s.drop_first(), id)
    }
}

/// The first observation row carrying `id`, if any.
pub open spec fn obs_row_of(s: Seq<ObservationRowData>, id: UuidVal) -> Option<ObservationRowData>
    decreases s.len(),
{
    if s.len() == 0 {
        None
    } else if s.first().id == id {
        Some(s.first())
    } else {
        obs_row_of(s.drop_first(), id)
    }
}

// --- upsert semantics ----------------------------------------------------

/// Insert-or-update of a trace: an existing row keeps its position and its
/// `created_at` and has every other column replaced; otherwise the new row is
/// appended.
pub open spec fn upsert_trace_rows(
    s: Seq<TraceRowData>,
    t: TraceIngestData,
    d: Seq<char>,
    now: Timestamp,
) -> Seq<TraceRowData>
    decreases s.len(),
{
    if s.len() == 0 {
        seq![trace_row_from(t, d, now, now)]
    } else if s.first().id == t.id {
        seq![trace_row_from(t, d, now, s.first().created_at)] + s.drop_first()
    } else {
        seq![s.first()] + upsert_trace_rows(s.drop_first(), t, d, now)
    }
}

/// The minimal stub row materialized for an observation whose trace has not
/// been sent.
pub open spec fn stub_trace_row(
    id: UuidVal,
    project_id: Seq<char>,
    environment: Seq<char>,
    now: Timestamp,
) -> TraceRowData {
    TraceRowData {
        id: id,
        project_id: project_id,
        environment: environment,
        timestamp: now,
        name: None,
        input: None,
        output: None,
        session_id: None,
        release: None,
        version: None,
        user_id: None,
        metadata: None,
        tags: Seq::empty(),
        public: false,
        external_id: None,
        bookmarked: false,
        latency: None,
        total_cost: None,
        created_at: now,
        updated_at: now,
    }
}

/// Ensures the referenced trace row exists: an existing row is left
/// untouched; otherwise a minimal stub is appended.
pub open spec fn ensure_trace_rows(
    s: Seq<TraceRowData>,
    id: UuidVal,
    project_id: Seq<char>,
    environment: Seq<char>,
    now: Timestamp,
) -> Seq<TraceRowData>
    decreases s.len(),
{
    if s.len() == 0 {
        seq![stub_trace_row(id, project_id, environment, now)]
    } else if s.first().id == id {
        s
    } else {
        seq![s.first()] + ensure_trace_rows(s.drop_first(), id, project_id, environment, now)
    }
}

/// Insert-or-update of an observation, like the trace upsert.
pub open spec fn upsert_obs_rows(
    s: Seq<ObservationRowData>,
    o: ObservationIngestData,
    d: Seq<char>,
    now: Timestamp,
) -> Seq<ObservationRowData>
    decreases s.len(),
{
    if s.len() == 0 {
        seq![obs_row_from(o, d, now, now)]
    } else if s.first().id == o.id {
        seq![obs_row_from(o, d, now, s.first().created_at)] + s.drop_first()
    } else {
        seq![s.first()] + upsert_obs_rows(s.drop_first(), o, d, now)
    }
}

/// One observation applied to the store: the trace stub ensured, then the
/// observation upserted.
pub open spec fn apply_observation_data(
    st: StoreData,
    o: ObservationIngestData,
    d: Seq<char>,
    now: Timestamp,
) -> StoreData {
    StoreData {
        traces: ensure_trace_rows(
            st.traces,
            o.trace_id,
            opt_str_or(o.project_id, d),
            opt_str_or(o.environment, "default"@),
            now,
        ),
        observations: upsert_obs_rows(st.observations, o, d, now),
    }
}

/// A batch's observations applied in arrival order.
pub open spec fn apply_observations_data(
    st: StoreData,
    obs: Seq<ObservationIngestData>,
    d: Seq<char>,
    now: Timestamp,
) -> StoreData
    decreases obs.len(),
{
    if obs.len() == 0 {
        st
    } else {
        apply_observations_data(
            apply_observation_data(st, obs.first(), d, now),
            obs.drop_first(),
            d,
            now,
        )
    }
}

/// One batch applied to the store: the trace upserted when present, then the
/// observations in order.
pub open spec fn apply_batch_data(
    st: StoreData,
    b: BatchIngestData,
    d: Seq<char>,
    now: Timestamp,
) -> StoreData {
    let st1 = match b.trace {
        Some(t) => StoreData { traces: upsert_trace_rows(st.traces, t, d, now), ..st },
        None => st,
    };
    apply_observations_data(st1, b.observations, d, now)
}

/// A window of batches applied in arrival order.
pub open spec fn apply_batches_data(
    st: StoreData,
    bs: Seq<BatchIngestData>,
    d: Seq<char>,
    now: Timestamp,
) -> StoreData
    decreases bs.len(),
{
    if bs.len() == 0 {
        st
    } else {
        apply_batches_data(apply_batch_data(st, bs.first(), d, now), bs.drop_first(), d, now)
    }
}

// --- characterization lemmas ---------------------------------------------

proof fn lemma_upsert_trace_found(
    s: Seq<TraceRowData>,
    t: TraceIngestData,
    d: Seq<char>,
    now: Timestamp,
    i: int,
)
    requires
        0 <= i < s.len(),
        s[i].id == t.id,
        forall|j: int| 0 <= j < i ==> (#[trigger] s[j].id) != t.id,
    ensures
        upsert_trace_rows(s, t, d, now) == s.update(i, trace_row_from(t, d, now, s[i].created_at)),
    decreases i,
{
    if i == 0 {
        assert(upsert_trace_rows(s, t, d, now) =~= s.update(
            0,
            trace_row_from(t, d, now, s[0].created_at),
        ));
    } else {
        lemma_upsert_trace_found(s.drop_first(), t, d, now, i - 1);
        assert(s.drop_first().update(i - 1, trace_row_from(t, d, now, s[i].created_at)) =~= s.update(
            i,
            trace_row_from(t, d, now, s[i].created_at),
        ).drop_first());
        assert(upsert_trace_rows(s, t, d, now) =~= s.update(
            i,
            trace_row_from(t, d, now, s[i].created_at),
        ));
    }
}

proof fn lemma_upsert_trace_absent(
    s: Seq<TraceRowData>,
    t: TraceIngestData,
    d: Seq<char>,
    now: Timestamp,
)
    requires
        forall|j: int| 0 <= j < s.len() ==> (#[trigger] s[j].id) != t.id,
    ensures
        upsert_trace_rows(s, t, d, now) == s.push(trace_row_from(t, d, now, now)),
    decreases s.len(),
{
    if s.len() > 0 {
        lemma_upsert_trace_absent(s.drop_first(), t, d, now);
    }
    assert(upsert_trace_rows(s, t, d, now) =~= s.push(trace_row_from(t, d, now, now)));
}

proof fn lemma_ensure_trace_found(
    s: Seq<TraceRowData>,
    id: UuidVal,
    project_id: Seq<char>,
    environment: Seq<char>,
    now: Timestamp,
    i: int,
)
    requires
        0 <= i < s.len(),
        s[i].id == id,
    ensures
        ensure_trace_rows(s, id, project_id, environment, now) == s,
    decreases i,
{
    if i > 0 {
        lemma_ensure_trace_found(s.drop_first(), id, project_id, environment, now, i - 1);
        assert(ensure_trace_rows(s, id, project_id, environment, now) =~= s);
    }
}

proof fn lemma_ensure_trace_absent(
    s: Seq<TraceRowData>,
    id: UuidVal,
    project_id: Seq<char>,
    environment: Seq<char>,
    now: Timestamp,
)
    requires
        forall|j: int| 0 <= j < s.len() ==> (#[trigger] s[j].id) != id,
    ensures
        ensure_trace_rows(s, id, project_id, environment, now) == s.push(
            stub_trace_row(id, project_id, environment, now),
        ),
    decreases s.len(),
{
    if s.len() > 0 {
        lemma_ensure_trace_absent(s.drop_first(), id, project_id, environment, now);
    }
    assert(ensure_trace_rows(s, id, project_id, environment, now) =~= s.push(
        stub_trace_row(id, project_id, environment, now),
    ));
}

proof fn lemma_upsert_obs_found(
    s: Seq<ObservationRowData>,
    o: ObservationIngestData,
    d: Seq<char>,
    now: Timestamp,
    i: int,
)
    requires
        0 <= i < s.len(),
        s[i].id == o.id,
        forall|j: int| 0 <= j < i ==> (#[trigger] s[j].id) != o.id,
    ensures
        upsert_obs_rows(s, o, d, now) == s.update(i, obs_row_from(o, d, now, s[i].created_at)),
    decreases i,
{
    if i == 0 {
        assert(upsert_obs_rows(s, o, d, now) =~= s.update(
            0,
            obs_row_from(o, d, now, s[0].created_at),
        ));
    } else {
        lemma_upsert_obs_found(s.drop_first(), o, d, now, i - 1);
        assert(s.drop_first().update(i - 1, obs_row_from(o, d, now, s[i].created_at)) =~= s.update(
            i,
            obs_row_from(o, d, now, s[i].created_at),
        ).drop_first());
        assert(upsert_obs_rows(s, o, d, now) =~= s.update(
            i,
            obs_row_from(o, d, now, s[i].created_at),
        ));
    }
}

proof fn lemma_upsert_obs_absent(
    s: Seq<ObservationRowData>,
    o: ObservationIngestData,
    d: Seq<char>,
    now: Timestamp,
)
    requires
        forall|j: int| 0 <= j < s.len() ==> (#[trigger] s[j].id) != o.id,
    ensures
        upsert_obs_rows(s, o, d, now) == s.push(obs_row_from(o, d, now, now)),
    decreases s.len(),
{
    if s.len() > 0 {
        lemma_upsert_obs_absent(s.drop_first(), o, d, now);
    }
    assert(upsert_obs_rows(s, o, d, now) =~= s.push(obs_row_from(o, d, now, now)));
}

// --- the executable store ------------------------------------------------

/// The store: every persisted trace and observation row, in insertion order,
/// with unique identifiers.
pub struct Store {
    pub traces: Vec<TraceRow>,
    pub observations: Vec<ObservationRow>,
}

impl View for Store {
    type V = StoreData;

    open spec fn view(&self) -> StoreData {
        StoreData {
            traces: trace_rows_view(self.traces@),
            observations: obs_rows_view(self.observations@),
        }
    }
}

fn find_trace_index(rows: &Vec<TraceRow>, id: UuidVal) -> (r: Option<usize>)
    ensures
        match r {
            Some(i) => i < rows@.len() && rows@[i as int]@.id == id && forall|j: int|
                0 <= j < i ==> (#[trigger] rows@[j]@.id) != id,
            None => forall|j: int| 0 <= j < rows@.len() ==> (#[trigger] rows@[j]@.id) != id,
        },
{
    let n = rows.len();
    let mut i: usize = 0;
    while i < n
        invariant
            0 <= i <= n,
            n == rows@.len(),
            forall|j: int| 0 <= j < i ==> (#[trigger] rows@[j]@.id) != id,
        decreases n - i,
    {
        if rows[i].id == id {
            return Some(i);
        }
        i = i + 1;
    }
    None
}

fn find_obs_index(rows: &Vec<ObservationRow>, id: UuidVal) -> (r: Option<usize>)
    ensures
        match r {
            Some(i) => i < rows@.len() && rows@[i as int]@.id == id && forall|j: int|
                0 <= j < i ==> (#[trigger] rows@[j]@.id) != id,
            None => forall|j: int| 0 <= j < rows@.len() ==> (#[trigger] rows@[j]@.id) != id,
        },
{
    let n = rows.len();
    let mut i: usize = 0;
    while i < n
        invariant
            0 <= i <= n,
            n == rows@.len(),
            forall|j: int| 0 <= j < i ==> (#[trigger] rows@[j]@.id) != id,
        decreases n - i,
    {
        if rows[i].id == id {
            return Some(i);
        }
        i = i + 1;
    }
    None
}

impl Store {
    /// The empty store.
    pub fn new() -> (r: Store)
        ensures
            r@.traces == Seq::<TraceRowData>::empty(),
            r@.observations == Seq::<ObservationRowData>::empty(),
            store_wf(r@),
    {
        let r = Store { traces: Vec::new(), observations: Vec::new() };
        proof {
            assert(r@.traces =~= Seq::<TraceRowData>::empty());
            assert(r@.observations =~= Seq::<ObservationRowData>::empty());
        }
        r
    }

    fn upsert_trace(&mut self, t: &TraceIngest, d: &String, now: Timestamp)
        requires
            store_wf(old(self)@),
        ensures
            final(self)@.traces == upsert_trace_rows(old(self)@.traces, t@, d@, now),
            final(self)@.observations == old(self)@.observations,
            store_wf(final(self)@),
    {
        let ghost s0 = self@.traces;
        match find_trace_index(&self.traces, t.id) {
            Some(i) => {
                let created = self.traces[i].created_at;
                let row = trace_row_from_ingest(t, d, now, created);
                proof {
                    lemma_upsert_trace_found(s0, t@, d@, now, i as int);
                }
                self.traces.set(i, row);
                proof {
                    assert(trace_rows_view(self.traces@) =~= s0.update(
                        i as int,
                        trace_row_from(t@, d@, now, s0[i as int].created_at),
                    ));
                }
            },
            None => {
                let row = trace_row_from_ingest(t, d, now, now);
                proof {
                    lemma_upsert_trace_absent(s0, t@, d@, now);
                }
                self.traces.push(row);
                proof {
                    assert(trace_rows_view(self.traces@) =~= s0.push(
                        trace_row_from(t@, d@, now, now),
                    ));
                }
            },
        }
        proof {
            assert(obs_rows_view(self.observations@) =~= obs_rows_view(old(self).observations@));
        }
    }

    fn apply_observation(&mut self, o: &ObservationIngest, d: &String, now: Timestamp)
        requires
            store_wf(old(self)@),
        ensures
            final(self)@ == apply_observation_data(old(self)@, o@, d@, now),
            store_wf(final(self)@),
    {
        let ghost st0 = self@;
        let project_id = opt_string_or(&o.project_id, d);
        let environment = opt_string_or(&o.environment, &default_environment());
        match find_trace_index(&self.traces, o.trace_id) {
            Some(i) => {
                proof {
                    lemma_ensure_trace_found(
                        st0.traces,
                        o@.trace_id,
                        project_id@,
                        environment@,
                        now,
                        i as int,
                    );
                }
            },
            None => {
                let stub = TraceRow {
                    id: o.trace_id,
                    project_id: project_id,
                    environment: environment,
                    timestamp: now,
                    name: None,
                    input: None,
                    output: None,
                    session_id: None,
                    release: None,
                    version: None,
                    user_id: None,
                    metadata: None,
                    tags: Vec::new(),
                    public: false,
                    external_id: None,
                    bookmarked: false,
                    latency: None,
                    total_cost: None,
                    created_at: now,
                    updated_at: now,
                };
                proof {
                    lemma_ensure_trace_absent(st0.traces, o@.trace_id, stub@.project_id, stub@.environment, now);
                    assert(stub@ =~= stub_trace_row(o@.trace_id, stub@.project_id, stub@.environment, now));
                }
                self.traces.push(stub);
                proof {
                    assert(trace_rows_view(self.traces@) =~= st0.traces.push(
                        stub_trace_row(
                            o@.trace_id,
                            opt_str_or(o@.project_id, d@),
                            opt_str_or(o@.environment, "default"@),
                            now,
                        ),
                    ));
                }
            },
        }
        let ghost s0 = st0.observations;
        match find_obs_index(&self.observations, o.id) {
            Some(i) => {
                let created = self.observations[i].created_at;
                let row = obs_row_from_ingest(o, d, now, created);
                proof {
                    lemma_upsert_obs_found(s0, o@, d@, now, i as int);
                }
                self.observations.set(i, row);
                proof {
                    assert(obs_rows_view(self.observations@) =~= s0.update(
                        i as int,
                        obs_row_from(o@, d@, now, s0[i as int].created_at),
                    ));
                }
            },
            None => {
                let row = obs_row_from_ingest(o, d, now, now);
                proof {
                    lemma_upsert_obs_absent(s0, o@, d@, now);
                }
                self.observations.push(row);
                proof {
                    assert(obs_rows_view(self.observations@) =~= s0.push(
                        obs_row_from(o@, d@, now, now),
                    ));
                }
            },
        }
    }

    /// Applies one ingestion envelope: the trace upserted when present, then
    /// every observation, each ensuring its trace row exists first.
    pub fn apply_batch(&mut self, batch: &BatchIngestRequest, default_project_id: &String, now: Timestamp)
        requires
            store_wf(old(self)@),
        ensures
            final(self)@ == apply_batch_data(old(self)@, batch@, default_project_id@, now),
            store_wf(final(self)@),
    {
        match &batch.trace {
            Some(t) => {
                self.upsert_trace(t, default_project_id, now);
            },
            None => {},
        }
        let ghost st1 = self@;
        let ghost obs_data = batch@.observations;
        let n = batch.observations.len();
        let mut i: usize = 0;
        proof {
            assert(obs_data.skip(0) =~= obs_data);
        }
        while i < n
            invariant
                0 <= i <= n,
                n == batch.observations@.len(),
                obs_data == batch@.observations,
                store_wf(self@),
                apply_observations_data(st1, obs_data, default_project_id@, now)
                    == apply_observations_data(self@, obs_data.skip(i as int), default_project_id@, now),
            decreases n - i,
        {
            proof {
                assert(obs_data.skip(i as int).first() == obs_data[i as int]);
                assert(obs_data[i as int] == batch.observations@[i as int]@);
                assert(obs_data.skip(i as int).drop_first() =~= obs_data.skip(i + 1));
            }
            self.apply_observation(&batch.observations[i], default_project_id, now);
            i = i + 1;
        }
        proof {
            assert(obs_data.skip(n as int) =~= Seq::<ObservationIngestData>::empty());
        }
    }

    /// Applies a window of envelopes in arrival order.
    pub fn apply_batches(&mut self, batches: &Vec<BatchIngestRequest>, default_project_id: &String, now: Timestamp)
        requires
            store_wf(old(self)@),
        ensures
            final(self)@ == apply_batches_data(
                old(self)@,
                Seq::new(batches@.len(), |i: int| batches@[i]@),
                default_project_id@,
                now,
            ),
            store_wf(final(self)@),
    {
        let ghost bs = Seq::new(batches@.len(), |i: int| batches@[i]@);
        let ghost st0 = self@;
        let n = batches.len();
        let mut i: usize = 0;
        proof {
            assert(bs.skip(0) =~= bs);
        }
        while i < n
            invariant
                0 <= i <= n,
                n == batches@.len(),
                bs == Seq::new(batches@.len(), |k: int| batches@[k]@),
                store_wf(self@),
                apply_batches_data(st0, bs, default_project_id@, now)
                    == apply_batches_data(self@, bs.skip(i as int), default_project_id@, now),
            decreases n - i,
        {
            proof {
                assert(bs.skip(i as int).first() == bs[i as int]);
                assert(bs.skip(i as int).drop_first() =~= bs.skip(i + 1));
            }
            self.apply_batch(&batches[i], default_project_id, now);
            i = i + 1;
        }
        proof {
            assert(bs.skip(n as int) =~= Seq::<BatchIngestData>::empty());
        }
    }

    /// The first trace row carrying `id`.
    pub fn find_trace<'a>(&'a self, id: UuidVal) -> (r: Option<&'a TraceRow>)
        ensures
            match r {
                Some(row) => trace_row_of(self@.traces, id) == Some(row@),
                None => trace_row_of(self@.traces, id) is None,
            },
    {
        match find_trace_index(&self.traces, id) {
            Some(i) => {
                proof {
                    lemma_trace_row_of_found(self@.traces, id, i as int);
                }
                Some(&self.traces[i])
            },
            None => {
                proof {
                    lemma_trace_row_of_absent(self@.traces, id);
                }
                None
            },
        }
    }
}

/// Positional search agrees with the recursive lookup: a first hit.
pub proof fn lemma_trace_row_of_found(s: Seq<TraceRowData>, id: UuidVal, i: int)
    requires
        0 <= i < s.len(),
        s[i].id == id,
        forall|j: int| 0 <= j < i ==> (#[trigger] s[j].id) != id,
    ensures
        trace_row_of(s, id) == Some(s[i]),
    decreases i,
{
    if i > 0 {
        lemma_trace_row_of_found(s.drop_first(), id, i - 1);
    }
}

/// Positional search agrees with the recursive lookup: no hit.
pub proof fn lemma_trace_row_of_absent(s: Seq<TraceRowData>, id: UuidVal)
    requires
        forall|j: int| 0 <= j < s.len() ==> (#[trigger] s[j].id) != id,
    ensures
        trace_row_of(s, id) is None,
    decreases s.len(),
{
    if s.len() > 0 {
        lemma_trace_row_of_absent(s.drop_first(), id);
    }
}

} // verus!
