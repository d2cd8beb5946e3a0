//! The ingestion envelope: one batch carries an optional trace record and a
//! list of observation records, all keyed by client-supplied identifiers.
//!
//! Fractional quantities of the wire format (latencies, costs, prices) are
//! carried as fixed-point integers with six decimal places; the shell around
//! the library converts at its edge.

use vstd::prelude::*;

use crate::codec::{Timestamp, UuidVal};
use crate::json::{JsonData, JsonVal};
use crate::otlp::string_vec_view;

verus! {

/// The view of an optional string.
pub open spec fn view_opt_str(o: Option<String>) -> Option<Seq<char>> {
    match o {
        Some(s) => Some(s@),
        None => None,
    }
}

/// The view of an optional JSON value.
pub open spec fn view_opt_json(o: &Option<JsonVal>) -> Option<JsonData> {
    match o {
        Some(v) => Some(v@),
        None => None,
    }
}

/// A trace record as a client supplies it; absent fields take defaults at write time.
pub struct TraceIngest {
    pub id: UuidVal,
    pub timestamp: Option<Timestamp>,
    pub name: Option<String>,
    pub input: Option<JsonVal>,
    pub output: Option<JsonVal>,
    pub session_id: Option<String>,
    pub release: Option<String>,
    pub version: Option<String>,
    pub user_id: Option<String>,
    pub metadata: Option<JsonVal>,
    pub tags: Vec<String>,
    pub public: Option<bool>,
    pub environment: Option<String>,
    pub external_id: Option<String>,
    pub bookmarked: Option<bool>,
    pub latency: Option<i64>,
    pub total_cost: Option<i64>,
    pub project_id: Option<String>,
}

/// The mathematical value of a [`TraceIngest`].
#[verifier::ext_equal]
pub struct TraceIngestData {
    pub id: UuidVal,
    pub timestamp: Option<Timestamp>,
    pub name: Option<Seq<char>>,
    pub input: Option<JsonData>,
    pub output: Option<JsonData>,
    pub session_id: Option<Seq<char>>,
    pub release: Option<Seq<char>>,
    pub version: Option<Seq<char>>,
    pub user_id: Option<Seq<char>>,
    pub metadata: Option<JsonData>,
    pub tags: Seq<Seq<char>>,
    pub public: Option<bool>,
    pub environment: Option<Seq<char>>,
    pub external_id: Option<Seq<char>>,
    pub bookmarked: Option<bool>,
    pub latency: Option<i64>,
    pub total_cost: Option<i64>,
    pub project_id: Option<Seq<char>>,
}

impl View for TraceIngest {
    type V = TraceIngestData;

    open spec fn view(&self) -> TraceIngestData {
        TraceIngestData {
            id: self.id,
            timestamp: self.timestamp,
            name: view_opt_str(self.name),
            input: view_opt_json(&self.input),
            output: view_opt_json(&self.output),
            session_id: view_opt_str(self.session_id),
            release: view_opt_str(self.release),
            version: view_opt_str(self.version),
            user_id: view_opt_str(self.user_id),
            metadata: view_opt_json(&self.metadata),
            tags: string_vec_view(self.tags@),
            public: self.public,
            environment: view_opt_str(self.environment),
            external_id: view_opt_str(self.external_id),
            bookmarked: self.bookmarked,
            latency: self.latency,
            total_cost: self.total_cost,
            project_id: view_opt_str(self.project_id),
        }
    }
}

/// An observation record as a client supplies it.
pub struct ObservationIngest {
    pub id: UuidVal,
    pub trace_id: UuidVal,
    pub obs_type: Option<String>,
    pub name: Option<String>,
    pub start_time: Option<Timestamp>,
    pub end_time: Option<Timestamp>,
    pub completion_start_time: Option<Timestamp>,
    pub model: Option<String>,
    pub model_parameters: Option<JsonVal>,
    pub input: Option<JsonVal>,
    pub output: Option<JsonVal>,
    pub usage: Option<JsonVal>,
    pub level: Option<String>,
    pub status_message: Option<String>,
    pub parent_observation_id: Option<UuidVal>,
    pub prompt_id: Option<String>,
    pub prompt_name: Option<String>,
    pub prompt_version: Option<String>,
    pub model_id: Option<String>,
    pub input_price: Option<i64>,
    pub output_price: Option<i64>,
    pub total_price: Option<i64>,
    pub calculated_input_cost: Option<i64>,
    pub calculated_output_cost: Option<i64>,
    pub calculated_total_cost: Option<i64>,
    pub latency: Option<i64>,
    pub time_to_first_token: Option<i64>,
    pub completion_tokens: Option<i64>,
    pub prompt_tokens: Option<i64>,
    pub total_tokens: Option<i64>,
    pub unit: Option<String>,
    pub metadata: Option<JsonVal>,
    pub environment: Option<String>,
    pub project_id: Option<String>,
}

/// The mathematical value of a [`ObservationIngest`].
#[verifier::ext_equal]
pub struct ObservationIngestData {
    pub id: UuidVal,
    pub trace_id: UuidVal,
    pub obs_type: Option<Seq<char>>,
    pub name: Option<Seq<char>>,
    pub start_time: Option<Timestamp>,
    pub end_time: Option<Timestamp>,
    pub completion_start_time: Option<Timestamp>,
    pub model: Option<Seq<char>>,
    pub model_parameters: Option<JsonData>,
    pub input: Option<JsonData>,
    pub output: Option<JsonData>,
    pub usage: Option<JsonData>,
    pub level: Option<Seq<char>>,
    pub status_message: Option<Seq<char>>,
    pub parent_observation_id: Option<UuidVal>,
    pub prompt_id: Option<Seq<char>>,
    pub prompt_name: Option<Seq<char>>,
    pub prompt_version: Option<Seq<char>>,
    pub model_id: Option<Seq<char>>,
    pub input_price: Option<i64>,
    pub output_price: Option<i64>,
    pub total_price: Option<i64>,
    pub calculated_input_cost: Option<i64>,
    pub calculated_output_cost: Option<i64>,
    pub calculated_total_cost: Option<i64>,
    pub latency: Option<i64>,
    pub time_to_first_token: Option<i64>,
    pub completion_tokens: Option<i64>,
    pub prompt_tokens: Option<i64>,
    pub total_tokens: Option<i64>,
    pub unit: Option<Seq<char>>,
    pub metadata: Option<JsonData>,
    pub environment: Option<Seq<char>>,
    pub project_id: Option<Seq<char>>,
}

impl View for ObservationIngest {
    type V = ObservationIngestData;

    open spec fn view(&self) -> ObservationIngestData {
        ObservationIngestData {
            id: self.id,
            trace_id: self.trace_id,
            obs_type: view_opt_str(self.obs_type),
            name: view_opt_str(self.name),
            start_time: self.start_time,
            end_time: self.end_time,
            completion_start_time: self.completion_start_time,
            model: view_opt_str(self.model),
            model_parameters: view_opt_json(&self.model_parameters),
            input: view_opt_json(&self.input),
            output: view_opt_json(&self.output),
            usage: view_opt_json(&self.usage),
            level: view_opt_str(self.level),
            status_message: view_opt_str(self.status_message),
            parent_observation_id: self.parent_observation_id,
            prompt_id: view_opt_str(self.prompt_id),
            prompt_name: view_opt_str(self.prompt_name),
            prompt_version: view_opt_str(self.prompt_version),
            model_id: view_opt_str(self.model_id),
            input_price: self.input_price,
            output_price: self.output_price,
            total_price: self.total_price,
            calculated_input_cost: self.calculated_input_cost,
            calculated_output_cost: self.calculated_output_cost,
            calculated_total_cost: self.calculated_total_cost,
            latency: self.latency,
            time_to_first_token: self.time_to_first_token,
            completion_tokens: self.completion_tokens,
            prompt_tokens: self.prompt_tokens,
            total_tokens: self.total_tokens,
            unit: view_opt_str(self.unit),
            metadata: view_opt_json(&self.metadata),
            environment: view_opt_str(self.environment),
            project_id: view_opt_str(self.project_id),
        }
    }
}

/// A single ingestion envelope: zero or one trace and zero or more
/// observations.
pub struct BatchIngestRequest {
    pub trace: Option<TraceIngest>,
    pub observations: Vec<ObservationIngest>,
}

/// The mathematical value of a [`BatchIngestRequest`].
#[verifier::ext_equal]
pub struct BatchIngestData {
    pub trace: Option<TraceIngestData>,
    pub observations: Seq<ObservationIngestData>,
}

/// The views of an observation vector.
pub open spec fn observations_view(v: Seq<ObservationIngest>) -> Seq<ObservationIngestData> {
    Seq::new(v.len(), |i: int| v[i]@)
}

impl View for BatchIngestRequest {
    type V = BatchIngestData;

    open spec fn view(&self) -> BatchIngestData {
        BatchIngestData {
            trace: match self.trace {
                Some(t) => Some(t@),
                None => None,
            },
            observations: observations_view(self.observations@),
        }
    }
}

/// Clones an optional string; the clone denotes the same text.
pub fn clone_opt_string(o: &Option<String>) -> (r: Option<String>)
    ensures
        view_opt_str(r) == view_opt_str(*o),
{
    match o {
        Some(s) => Some(s.clone()),
        None => None,
    }
}

/// Clones an optional JSON value; the clone denotes the same value.
pub fn clone_opt_json(o: &Option<JsonVal>) -> (r: Option<JsonVal>)
    ensures
        view_opt_json(&r) == view_opt_json(o),
{
    match o {
        Some(v) => Some(v.clone()),
        None => None,
    }
}

/// Clones a string vector; the clone denotes the same texts.
pub fn clone_vec_string(v: &Vec<String>) -> (r: Vec<String>)
    ensures
        string_vec_view(r@) == string_vec_view(v@),
{
    let mut out: Vec<String> = Vec::new();
    let n = v.len();
    let mut i: usize = 0;
    while i < n
        invariant
            0 <= i <= n,
            n == v@.len(),
            out@.len() == i,
            forall|j: int| 0 <= j < i ==> out@[j]@ == v@[j]@,
        decreases n - i,
    {
        out.push(v[i].clone());
        i = i + 1;
    }
    proof {
        assert(string_vec_view(out@) =~= string_vec_view(v@));
    }
    out
}

} // verus!
