//! The OTLP mapper: walks resource-spans, scope-spans and spans, and emits
//! one ingestion envelope per distinct trace, with an aggregated trace record
//! and that trace's observations in span order. Malformed spans are dropped
//! silently; they never poison the batch.

use vstd::prelude::*;

use crate::codec::{
    be_val, hex_decoded, is_hex_encoding, int_literal_value, ts_lt, ts_of_nanos,
    otlp_span_id_to_uuid, otlp_trace_id_to_uuid, parse_unix_nano, ts_before,
    lemma_be_val_fits_u128, Timestamp, UuidVal, MAX_INSTANT_NANOS,
};
use crate::ingest::{
    BatchIngestRequest, BatchIngestData, ObservationIngest, ObservationIngestData,
    TraceIngest, TraceIngestData,
};
use crate::json::{
    json_entry_seq_view, json_text_value, obj_insert, obj_merge, parse_json_text, JsonData,
    JsonVal, entries_insert,
};
use crate::otlp::{
    attr_string, attr_string_array, attrs_object, get_prefixed_entries, get_string,
    get_string_array, json_int_field, opt_i64_is, prefixed_object, string_vec_view,
    usage_details_data, usage_object, OtelExport, OtelResource, OtelResourceSpans, OtelScopeSpans,
    OtelSpan, attributes_to_entries, parse_usage_details,
};
use crate::text::{str_eq, to_uppercase, trim_spaces, upper_of};

verus! {

// --- per-span projections -------------------------------------------------

/// The trace identifier of a span, when its hex trace id is well formed.
pub open spec fn span_trace_uuid(sp: OtelSpan) -> Option<UuidVal> {
    let t = trim_spaces(sp.trace_id@);
    if is_hex_encoding(t) && t.len() == 32 {
        Some(UuidVal { value: be_val(hex_decoded(t)) as u128 })
    } else {
        None
    }
}

/// The observation identifier of a span, when its hex span id is well formed.
pub open spec fn span_span_uuid(sp: OtelSpan) -> Option<UuidVal> {
    let t = trim_spaces(sp.span_id@);
    if is_hex_encoding(t) && t.len() == 16 {
        Some(UuidVal { value: be_val(hex_decoded(t)) as u128 })
    } else {
        None
    }
}

/// A span is kept when both identifiers decode.
pub open spec fn span_valid(sp: OtelSpan) -> bool {
    span_trace_uuid(sp) is Some && span_span_uuid(sp) is Some
}

/// The parent identifier: present, non-empty, not all zeros, and decodable.
pub open spec fn span_parent_uuid(sp: OtelSpan) -> Option<UuidVal> {
    match sp.parent_span_id {
        Some(p) => if p@.len() > 0 && p@ != "0000000000000000"@ {
            let t = trim_spaces(p@);
            if is_hex_encoding(t) && t.len() == 16 {
                Some(UuidVal { value: be_val(hex_decoded(t)) as u128 })
            } else {
                None
            }
        } else {
            None
        },
        None => None,
    }
}

/// The instant an optional nanosecond text denotes, when in range.
pub open spec fn nano_ts(o: Option<String>) -> Option<Timestamp> {
    match o {
        Some(s) => {
            let lit = int_literal_value(trim_spaces(s@));
            if lit is Some && 0 < lit.unwrap() <= MAX_INSTANT_NANOS {
                Some(ts_of_nanos(lit.unwrap()))
            } else {
                None
            }
        },
        None => None,
    }
}

/// The observation type: the type attribute, upper-cased under the Unicode
/// case mappings.
pub open spec fn obs_type_of(sp: OtelSpan) -> Option<Seq<char>> {
    match attr_string(sp.attributes@, "langfuse.observation.type"@) {
        Some(t) => Some(upper_of(t)),
        None => None,
    }
}

/// The model: the generation-model attribute, else the request-model one.
pub open spec fn model_of(sp: OtelSpan) -> Option<Seq<char>> {
    match attr_string(sp.attributes@, "langfuse.generation.model"@) {
        Some(m) => Some(m),
        None => attr_string(sp.attributes@, "gen_ai.request.model"@),
    }
}

/// Text parsed as JSON; a parse failure wraps the raw text as a JSON string.
pub open spec fn wrapped_json(t: Seq<char>) -> JsonData {
    match json_text_value(t) {
        Some(v) => v,
        None => JsonData::Str(t),
    }
}

/// The observation input: its attribute parsed as JSON, or wrapped.
pub open spec fn input_json(sp: OtelSpan) -> Option<JsonData> {
    match attr_string(sp.attributes@, "langfuse.observation.input"@) {
        Some(t) => Some(wrapped_json(t)),
        None => None,
    }
}

/// The observation output, like the input.
pub open spec fn output_json(sp: OtelSpan) -> Option<JsonData> {
    match attr_string(sp.attributes@, "langfuse.observation.output"@) {
        Some(t) => Some(wrapped_json(t)),
        None => None,
    }
}

/// The observation metadata object: every span attribute as JSON, plus the
/// resource attributes under `otel.resource`.
pub open spec fn obs_meta(sp: OtelSpan, res: Option<OtelResource>) -> Seq<(Seq<char>, JsonData)> {
    let m = attrs_object(sp.attributes@);
    match res {
        Some(r) => obj_insert(m, "otel.resource"@, JsonData::Obj(attrs_object(r.attributes@))),
        None => m,
    }
}

/// An integer field value that fits a signed 64-bit value.
pub open spec fn as_i64_opt(o: Option<int>) -> Option<i64> {
    match o {
        Some(n) => if i64::MIN <= n <= i64::MAX {
            Some(n as i64)
        } else {
            None
        },
        None => None,
    }
}

/// The usage object of a span, when its usage-details attribute parses.
pub open spec fn span_usage(sp: OtelSpan) -> Option<JsonData> {
    match usage_details_data(sp.attributes@) {
        Some(u) => Some(
            usage_object(
                json_int_field(u, "promptTokens"@),
                json_int_field(u, "completionTokens"@),
                json_int_field(u, "totalTokens"@),
            ),
        ),
        None => None,
    }
}

/// A token count of a span.
pub open spec fn span_tokens(sp: OtelSpan, key: Seq<char>) -> Option<i64> {
    match usage_details_data(sp.attributes@) {
        Some(u) => as_i64_opt(json_int_field(u, key)),
        None => None,
    }
}

/// The observation record a kept span maps to.
pub open spec fn obs_of_span(
    sp: OtelSpan,
    res: Option<OtelResource>,
    tid: UuidVal,
    sid: UuidVal,
    d: Seq<char>,
) -> ObservationIngestData {
    ObservationIngestData {
        id: sid,
        trace_id: tid,
        obs_type: obs_type_of(sp),
        name: Some(sp.name@),
        start_time: nano_ts(sp.start_time_unix_nano),
        end_time: nano_ts(sp.end_time_unix_nano),
        completion_start_time: None,
        model: model_of(sp),
        model_parameters: None,
        input: input_json(sp),
        output: output_json(sp),
        usage: span_usage(sp),
        level: None,
        status_message: None,
        parent_observation_id: span_parent_uuid(sp),
        prompt_id: None,
        prompt_name: None,
        prompt_version: None,
        model_id: None,
        input_price: None,
        output_price: None,
        total_price: None,
        calculated_input_cost: None,
        calculated_output_cost: None,
        calculated_total_cost: None,
        latency: None,
        time_to_first_token: None,
        completion_tokens: span_tokens(sp, "completionTokens"@),
        prompt_tokens: span_tokens(sp, "promptTokens"@),
        total_tokens: span_tokens(sp, "totalTokens"@),
        unit: None,
        metadata: Some(JsonData::Obj(obs_meta(sp, res))),
        environment: None,
        project_id: Some(d),
    }
}

// --- trace aggregation ------------------------------------------------------

/// The promoted trace name of a span.
pub open spec fn trace_name_of(sp: OtelSpan) -> Option<Seq<char>> {
    attr_string(sp.attributes@, "langfuse.trace.name"@)
}

/// The promoted trace tags of a span, absent when there is no tag attribute.
pub open spec fn trace_tags_of(sp: OtelSpan) -> Option<Seq<Seq<char>>> {
    attr_string_array(sp.attributes@, "langfuse.trace.tags"@)
}

/// The promoted trace metadata of a span.
pub open spec fn trace_meta_of(sp: OtelSpan) -> Seq<(Seq<char>, JsonData)> {
    prefixed_object(sp.attributes@, "langfuse.trace.metadata."@)
}

/// The trace record the first kept span of a trace starts.
pub open spec fn new_trace_for(tid: UuidVal, sp: OtelSpan, d: Seq<char>) -> TraceIngestData {
    TraceIngestData {
        id: tid,
        timestamp: nano_ts(sp.start_time_unix_nano),
        name: trace_name_of(sp),
        input: None,
        output: None,
        session_id: attr_string(sp.attributes@, "session.id"@),
        release: None,
        version: None,
        user_id: attr_string(sp.attributes@, "user.id"@),
        metadata: if trace_meta_of(sp).len() == 0 {
            None
        } else {
            Some(JsonData::Obj(trace_meta_of(sp)))
        },
        tags: match trace_tags_of(sp) {
            Some(v) => v,
            None => Seq::empty(),
        },
        public: None,
        environment: Some("default"@),
        external_id: None,
        bookmarked: None,
        latency: None,
        total_cost: None,
        project_id: Some(d),
    }
}

/// The earlier of an accumulated timestamp and a span start.
pub open spec fn min_ts_opt(cur: Option<Timestamp>, st: Option<Timestamp>) -> Option<Timestamp> {
    match st {
        Some(s) => match cur {
            Some(c) => if ts_lt(s, c) {
                Some(s)
            } else {
                Some(c)
            },
            None => Some(s),
        },
        None => cur,
    }
}

/// A later kept span of the same trace folded into its record:
/// first-writer-wins for name, user and session; tags set once; metadata
/// merged key by key; the timestamp kept minimal.
pub open spec fn updated_trace(t: TraceIngestData, sp: OtelSpan) -> TraceIngestData {
    TraceIngestData {
        timestamp: min_ts_opt(t.timestamp, nano_ts(sp.start_time_unix_nano)),
        name: if t.name is None {
            trace_name_of(sp)
        } else {
            t.name
        },
        user_id: if t.user_id is None {
            attr_string(sp.attributes@, "user.id"@)
        } else {
            t.user_id
        },
        session_id: if t.session_id is None {
            attr_string(sp.attributes@, "session.id"@)
        } else {
            t.session_id
        },
        tags: if t.tags.len() == 0 {
            match trace_tags_of(sp) {
                Some(v) => v,
                None => Seq::empty(),
            }
        } else {
            t.tags
        },
        metadata: match t.metadata {
            Some(JsonData::Obj(e)) => Some(JsonData::Obj(obj_merge(e, trace_meta_of(sp)))),
            Some(other) => Some(other),
            None => if trace_meta_of(sp).len() == 0 {
                None
            } else {
                Some(JsonData::Obj(trace_meta_of(sp)))
            },
        },
        ..t
    }
}

// --- grouping ---------------------------------------------------------------

/// One trace's accumulated record and observations.
pub struct Group {
    pub id: UuidVal,
    pub trace: TraceIngest,
    pub observations: Vec<ObservationIngest>,
}

/// The mathematical value of a [`Group`].
#[verifier::ext_equal]
pub struct GroupData {
    pub id: UuidVal,
    pub trace: TraceIngestData,
    pub observations: Seq<ObservationIngestData>,
}

impl View for Group {
    type V = GroupData;

    open spec fn view(&self) -> GroupData {
        GroupData {
            id: self.id,
            trace: self.trace@,
            observations: Seq::new(self.observations@.len(), |i: int| self.observations@[i]@),
        }
    }
}

/// One span folded into the groups: a malformed span changes nothing; a kept
/// span extends its trace's group, or opens a new one at the end.
pub open spec fn step_groups(
    gs: Seq<GroupData>,
    sp: OtelSpan,
    res: Option<OtelResource>,
    d: Seq<char>,
) -> Seq<GroupData> {
    match span_trace_uuid(sp) {
        Some(tid) => match span_span_uuid(sp) {
            Some(sid) => step_valid(gs, sp, res, tid, sid, d),
            None => gs,
        },
        None => gs,
    }
}

/// A kept span folded into the groups.
pub open spec fn step_valid(
    gs: Seq<GroupData>,
    sp: OtelSpan,
    res: Option<OtelResource>,
    tid: UuidVal,
    sid: UuidVal,
    d: Seq<char>,
) -> Seq<GroupData>
    decreases gs.len(),
{
    let obs = obs_of_span(sp, res, tid, sid, d);
    if gs.len() == 0 {
        seq![
            GroupData {
                id: tid,
                trace: new_trace_for(tid, sp, d),
                observations: seq![obs],
            },
        ]
    } else if gs.first().id == tid {
        seq![
            GroupData {
                id: tid,
                trace: updated_trace(gs.first().trace, sp),
                observations: gs.first().observations.push(obs),
            },
        ] + gs.drop_first()
    } else {
        seq![gs.first()] + step_valid(gs.drop_first(), sp, res, tid, sid, d)
    }
}

/// The spans of one scope paired with their resource.
pub open spec fn span_ctxs(spans: Seq<OtelSpan>, res: Option<OtelResource>) -> Seq<
    (OtelSpan, Option<OtelResource>),
> {
    Seq::new(spans.len(), |i: int| (spans[i], res))
}

/// The spans of the scopes of one resource envelope, in order.
pub open spec fn flatten_scopes(ss: Seq<OtelScopeSpans>, res: Option<OtelResource>) -> Seq<
    (OtelSpan, Option<OtelResource>),
>
    decreases ss.len(),
{
    if ss.len() == 0 {
        Seq::empty()
    } else {
        span_ctxs(ss.first().spans@, res) + flatten_scopes(ss.drop_first(), res)
    }
}

/// All spans of an export with their resources, in walking order.
pub open spec fn flatten_export(rss: Seq<OtelResourceSpans>) -> Seq<
    (OtelSpan, Option<OtelResource>),
>
    decreases rss.len(),
{
    if rss.len() == 0 {
        Seq::empty()
    } else {
        flatten_scopes(rss.first().scope_spans@, rss.first().resource) + flatten_export(
            rss.drop_first(),
        )
    }
}

/// The groups of a span sequence, folded in order.
pub open spec fn fold_groups(
    gs: Seq<GroupData>,
    ctx: Seq<(OtelSpan, Option<OtelResource>)>,
    d: Seq<char>,
) -> Seq<GroupData>
    decreases ctx.len(),
{
    if ctx.len() == 0 {
        gs
    } else {
        fold_groups(step_groups(gs, ctx.first().0, ctx.first().1, d), ctx.drop_first(), d)
    }
}

/// The envelopes the groups become: one per distinct trace.
pub open spec fn batches_of(gs: Seq<GroupData>) -> Seq<BatchIngestData> {
    Seq::new(
        gs.len(),
        |i: int| BatchIngestData { trace: Some(gs[i].trace), observations: gs[i].observations },
    )
}

/// The whole mapping, as a function of the export.
pub open spec fn mapped_batches(export: OtelExport, d: Seq<char>) -> Seq<BatchIngestData> {
    batches_of(fold_groups(Seq::empty(), flatten_export(export.resource_spans@), d))
}

// --- executable mapping -------------------------------------------------

/// The views of a group vector.
pub open spec fn groups_view(v: Seq<Group>) -> Seq<GroupData> {
    Seq::new(v.len(), |i: int| v[i]@)
}

/// The values behind a collected span context.
pub open spec fn ctx_view<'a>(v: Seq<(&'a OtelSpan, Option<&'a OtelResource>)>) -> Seq<
    (OtelSpan, Option<OtelResource>),
> {
    Seq::new(
        v.len(),
        |i: int| (*v[i].0, match v[i].1 {
            Some(r) => Some(*r),
            None => None,
        }),
    )
}

proof fn lemma_flatten_scopes_snoc(ss: Seq<OtelScopeSpans>, j: int, res: Option<OtelResource>)
    requires
        0 <= j < ss.len(),
    ensures
        flatten_scopes(ss.take(j + 1), res) == flatten_scopes(ss.take(j), res) + span_ctxs(
            ss[j].spans@,
            res,
        ),
    decreases j,
{
    if j == 0 {
        assert(ss.take(1).first() == ss[0]);
        assert(ss.take(1).drop_first() =~= Seq::<OtelScopeSpans>::empty());
        assert(flatten_scopes(ss.take(1).drop_first(), res) =~= Seq::<
            (OtelSpan, Option<OtelResource>),
        >::empty());
        assert(flatten_scopes(ss.take(0), res) =~= Seq::<(OtelSpan, Option<OtelResource>)>::empty());
        assert(flatten_scopes(ss.take(1), res) == span_ctxs(ss.take(1).first().spans@, res)
            + flatten_scopes(ss.take(1).drop_first(), res));
        assert(flatten_scopes(ss.take(1), res) =~= flatten_scopes(ss.take(0), res) + span_ctxs(
            ss[0].spans@,
            res,
        ));
    } else {
        lemma_flatten_scopes_snoc(ss.drop_first(), j - 1, res);
        assert(ss.take(j + 1).first() == ss[0]);
        assert(ss.take(j + 1).drop_first() =~= ss.drop_first().take(j));
        assert(ss.take(j).first() == ss[0]);
        assert(ss.take(j).drop_first() =~= ss.drop_first().take(j - 1));
        assert(ss.drop_first()[j - 1] == ss[j]);
        assert(flatten_scopes(ss.take(j + 1), res) =~= flatten_scopes(ss.take(j), res) + span_ctxs(
            ss[j].spans@,
            res,
        ));
    }
}

proof fn lemma_flatten_export_snoc(rss: Seq<OtelResourceSpans>, i: int)
    requires
        0 <= i < rss.len(),
    ensures
        flatten_export(rss.take(i + 1)) == flatten_export(rss.take(i)) + flatten_scopes(
            rss[i].scope_spans@,
            rss[i].resource,
        ),
    decreases i,
{
    if i == 0 {
        assert(rss.take(1).first() == rss[0]);
        assert(rss.take(1).drop_first() =~= Seq::<OtelResourceSpans>::empty());
        assert(flatten_export(rss.take(1).drop_first()) =~= Seq::<
            (OtelSpan, Option<OtelResource>),
        >::empty());
        assert(flatten_export(rss.take(0)) =~= Seq::<(OtelSpan, Option<OtelResource>)>::empty());
        assert(flatten_export(rss.take(1)) == flatten_scopes(
            rss.take(1).first().scope_spans@,
            rss.take(1).first().resource,
        ) + flatten_export(rss.take(1).drop_first()));
        assert(flatten_export(rss.take(1)) =~= flatten_export(rss.take(0)) + flatten_scopes(
            rss[0].scope_spans@,
            rss[0].resource,
        ));
    } else {
        lemma_flatten_export_snoc(rss.drop_first(), i - 1);
        assert(rss.take(i + 1).first() == rss[0]);
        assert(rss.take(i + 1).drop_first() =~= rss.drop_first().take(i));
        assert(rss.take(i).first() == rss[0]);
        assert(rss.take(i).drop_first() =~= rss.drop_first().take(i - 1));
        assert(rss.drop_first()[i - 1] == rss[i]);
        assert(flatten_export(rss.take(i + 1)) =~= flatten_export(rss.take(i)) + flatten_scopes(
            rss[i].scope_spans@,
            rss[i].resource,
        ));
    }
}

proof fn lemma_fold_groups_concat(
    gs: Seq<GroupData>,
    a: Seq<(OtelSpan, Option<OtelResource>)>,
    b: Seq<(OtelSpan, Option<OtelResource>)>,
    d: Seq<char>,
)
    ensures
        fold_groups(gs, a + b, d) == fold_groups(fold_groups(gs, a, d), b, d),
    decreases a.len(),
{
    if a.len() == 0 {
        assert(a + b =~= b);
    } else {
        assert((a + b).first() == a.first());
        assert((a + b).drop_first() =~= a.drop_first() + b);
        lemma_fold_groups_concat(step_groups(gs, a.first().0, a.first().1, d), a.drop_first(), b, d);
    }
}

/// Gathers every span of the export with its enclosing resource, in walking
/// order.
fn collect_spans<'a>(export: &'a OtelExport) -> (r: Vec<(&'a OtelSpan, Option<&'a OtelResource>)>)
    ensures
        ctx_view(r@) == flatten_export(export.resource_spans@),
{
    let ghost rss = export.resource_spans@;
    let mut out: Vec<(&'a OtelSpan, Option<&'a OtelResource>)> = Vec::new();
    let nr = export.resource_spans.len();
    let mut i: usize = 0;
    proof {
        assert(flatten_export(rss.take(0)) =~= Seq::<(OtelSpan, Option<OtelResource>)>::empty());
        assert(ctx_view(out@) =~= flatten_export(rss.take(0)));
    }
    while i < nr
        invariant
            0 <= i <= nr,
            nr == rss.len(),
            rss == export.resource_spans@,
            ctx_view(out@) == flatten_export(rss.take(i as int)),
        decreases nr - i,
    {
        let rs = &export.resource_spans[i];
        let res: Option<&'a OtelResource> = match &rs.resource {
            Some(r) => Some(r),
            None => None,
        };
        let ghost res_v = rs.resource;
        let ghost ss = rs.scope_spans@;
        let ns = rs.scope_spans.len();
        let mut j: usize = 0;
        proof {
            assert(flatten_scopes(ss.take(0), res_v) =~= Seq::<
                (OtelSpan, Option<OtelResource>),
            >::empty());
            assert(ctx_view(out@) =~= flatten_export(rss.take(i as int)) + flatten_scopes(
                ss.take(0),
                res_v,
            ));
        }
        while j < ns
            invariant
                0 <= j <= ns,
                0 <= i < rss.len(),
                nr == rss.len(),
                ns == ss.len(),
                rss == export.resource_spans@,
                ss == rss[i as int].scope_spans@,
                res_v == rss[i as int].resource,
                (match res {
                    Some(r) => res_v == Some(*r),
                    None => res_v is None,
                }),
                ctx_view(out@) == flatten_export(rss.take(i as int)) + flatten_scopes(
                    ss.take(j as int),
                    res_v,
                ),
            decreases ns - j,
        {
            let scope = &export.resource_spans[i].scope_spans[j];
            let ghost spans = scope.spans@;
            let np = scope.spans.len();
            let mut k: usize = 0;
            proof {
                assert(span_ctxs(spans.take(0), res_v) =~= Seq::<
                    (OtelSpan, Option<OtelResource>),
                >::empty());
                assert(ctx_view(out@) =~= flatten_export(rss.take(i as int)) + flatten_scopes(
                    ss.take(j as int),
                    res_v,
                ) + span_ctxs(spans.take(0), res_v));
            }
            while k < np
                invariant
                    0 <= k <= np,
                    0 <= i < rss.len(),
                    0 <= j < ss.len(),
                    nr == rss.len(),
                    ns == ss.len(),
                    np == spans.len(),
                    rss == export.resource_spans@,
                    ss == rss[i as int].scope_spans@,
                    spans == ss[j as int].spans@,
                    res_v == rss[i as int].resource,
                    (match res {
                        Some(r) => res_v == Some(*r),
                        None => res_v is None,
                    }),
                    ctx_view(out@) == flatten_export(rss.take(i as int)) + flatten_scopes(
                        ss.take(j as int),
                        res_v,
                    ) + span_ctxs(spans.take(k as int), res_v),
                decreases np - k,
            {
                let ghost prev = ctx_view(out@);
                out.push((&export.resource_spans[i].scope_spans[j].spans[k], res));
                proof {
                    assert(*out@[out@.len() - 1].0 == spans[k as int]);
                    assert(ctx_view(out@) =~= prev.push((spans[k as int], res_v)));
                    assert(span_ctxs(spans.take(k + 1), res_v) =~= span_ctxs(
                        spans.take(k as int),
                        res_v,
                    ).push((spans[k as int], res_v)));
                    assert(prev.push((spans[k as int], res_v)) =~= flatten_export(
                        rss.take(i as int),
                    ) + flatten_scopes(ss.take(j as int), res_v) + span_ctxs(
                        spans.take(k + 1),
                        res_v,
                    ));
                }
                k = k + 1;
            }
            proof {
                assert(spans.take(np as int) =~= spans);
                lemma_flatten_scopes_snoc(ss, j as int, res_v);
                assert(ctx_view(out@) =~= flatten_export(rss.take(i as int)) + flatten_scopes(
                    ss.take(j + 1),
                    res_v,
                ));
            }
            j = j + 1;
        }
        proof {
            assert(ss.take(ns as int) =~= ss);
            lemma_flatten_export_snoc(rss, i as int);
            assert(ctx_view(out@) =~= flatten_export(rss.take(i + 1)));
        }
        i = i + 1;
    }
    proof {
        assert(rss.take(nr as int) =~= rss);
    }
    out
}

/// Parses an optional nanosecond text.
fn parse_nano_opt(o: &Option<String>) -> (r: Option<Timestamp>)
    ensures
        r == nano_ts(*o),
{
    match o {
        Some(t) => parse_unix_nano(t.as_str()),
        None => None,
    }
}

fn parse_parent(sp: &OtelSpan) -> (r: Option<UuidVal>)
    ensures
        r == span_parent_uuid(*sp),
{
    match &sp.parent_span_id {
        Some(p) => {
            if !p.as_str().is_empty() && !str_eq(p.as_str(), "0000000000000000") {
                match otlp_span_id_to_uuid(p.as_str()) {
                    Some(u) => {
                        proof {
                            let t = trim_spaces(p@);
                            lemma_be_val_fits_u128(hex_decoded(t));
                        }
                        Some(u)
                    },
                    None => None,
                }
            } else {
                None
            }
        },
        None => None,
    }
}

fn get_string_upper(attrs: &Vec<crate::otlp::OtelKeyValue>, key: &str) -> (r: Option<String>)
    ensures
        ({
            let a = attr_string(attrs@, key@);
            match r {
                Some(t) => a is Some && t@ == upper_of(a.unwrap()),
                None => a is None,
            }
        }),
{
    match get_string(attrs, key) {
        Some(t) => Some(to_uppercase(t.as_str())),
        None => None,
    }
}

fn get_wrapped_json(attrs: &Vec<crate::otlp::OtelKeyValue>, key: &str) -> (r: Option<JsonVal>)
    ensures
        ({
            let a = attr_string(attrs@, key@);
            match r {
                Some(v) => a is Some && v@ == wrapped_json(a.unwrap()),
                None => a is None,
            }
        }),
{
    match get_string(attrs, key) {
        Some(t) => match parse_json_text(t.as_str()) {
            Some(v) => Some(v),
            None => Some(JsonVal::Str(t)),
        },
        None => None,
    }
}

/// Builds the observation record of one kept span.
fn make_observation(
    sp: &OtelSpan,
    res: Option<&OtelResource>,
    tid: UuidVal,
    sid: UuidVal,
    d: &String,
) -> (r: ObservationIngest)
    ensures
        r@ == obs_of_span(
            *sp,
            match res {
                Some(x) => Some(*x),
                None => None,
            },
            tid,
            sid,
            d@,
        ),
{
    let obs_type = get_string_upper(&sp.attributes, "langfuse.observation.type");
    let model = match get_string(&sp.attributes, "langfuse.generation.model") {
        Some(m) => Some(m),
        None => get_string(&sp.attributes, "gen_ai.request.model"),
    };
    let input = get_wrapped_json(&sp.attributes, "langfuse.observation.input");
    let output = get_wrapped_json(&sp.attributes, "langfuse.observation.output");
    let usage_parts = parse_usage_details(&sp.attributes);
    let mut meta_entries = attributes_to_entries(&sp.attributes);
    match res {
        Some(r) => {
            let rm = attributes_to_entries(&r.attributes);
            entries_insert(&mut meta_entries, "otel.resource".to_owned(), JsonVal::Obj(rm));
        },
        None => {},
    }
    let obs = ObservationIngest {
        id: sid,
        trace_id: tid,
        obs_type: obs_type,
        name: Some(sp.name.clone()),
        start_time: parse_nano_opt(&sp.start_time_unix_nano),
        end_time: parse_nano_opt(&sp.end_time_unix_nano),
        completion_start_time: None,
        model: model,
        model_parameters: None,
        input: input,
        output: output,
        usage: usage_parts.3,
        level: None,
        status_message: None,
        parent_observation_id: parse_parent(sp),
        prompt_id: None,
        prompt_name: None,
        prompt_version: None,
        model_id: None,
        input_price: None,
        output_price: None,
        total_price: None,
        calculated_input_cost: None,
        calculated_output_cost: None,
        calculated_total_cost: None,
        latency: None,
        time_to_first_token: None,
        completion_tokens: usage_parts.0,
        prompt_tokens: usage_parts.1,
        total_tokens: usage_parts.2,
        unit: None,
        metadata: Some(JsonVal::Obj(meta_entries)),
        environment: None,
        project_id: Some(d.clone()),
    };
    proof {
        let ghost resv = match res {
            Some(x) => Some(*x),
            None => None,
        };
        let ghost target = obs_of_span(*sp, resv, tid, sid, d@);
        assert(json_entry_seq_view(meta_entries@) == obs_meta(*sp, resv));
        match usage_details_data(sp.attributes@) {
            Some(u) => {
                assert(opt_i64_is(obs.completion_tokens, json_int_field(u, "completionTokens"@)));
                assert(obs@.completion_tokens == as_i64_opt(json_int_field(u, "completionTokens"@)));
                assert(obs@.prompt_tokens == as_i64_opt(json_int_field(u, "promptTokens"@)));
                assert(obs@.total_tokens == as_i64_opt(json_int_field(u, "totalTokens"@)));
            },
            None => {},
        }
        assert(obs@ =~= target);
    }
    obs
}

/// Builds the trace record the first kept span of a trace starts.
fn start_trace(tid: UuidVal, sp: &OtelSpan, d: &String) -> (r: TraceIngest)
    ensures
        r@ == new_trace_for(tid, *sp, d@),
{
    let meta_entries = get_prefixed_entries(&sp.attributes, "langfuse.trace.metadata.");
    let metadata = if meta_entries.len() > 0 {
        Some(JsonVal::Obj(meta_entries))
    } else {
        None
    };
    let tags = match get_string_array(&sp.attributes, "langfuse.trace.tags") {
        Some(v) => v,
        None => Vec::new(),
    };
    let t = TraceIngest {
        id: tid,
        timestamp: parse_nano_opt(&sp.start_time_unix_nano),
        name: get_string(&sp.attributes, "langfuse.trace.name"),
        input: None,
        output: None,
        session_id: get_string(&sp.attributes, "session.id"),
        release: None,
        version: None,
        user_id: get_string(&sp.attributes, "user.id"),
        metadata: metadata,
        tags: tags,
        public: None,
        environment: Some(default_env_string()),
        external_id: None,
        bookmarked: None,
        latency: None,
        total_cost: None,
        project_id: Some(d.clone()),
    };
    proof {
        assert(string_vec_view(Seq::<String>::empty()) =~= Seq::<Seq<char>>::empty());
        assert(t@ =~= new_trace_for(tid, *sp, d@));
    }
    t
}

fn default_env_string() -> (r: String)
    ensures
        r@ == "default"@,
{
    "default".to_owned()
}

/// Folds a later kept span of the same trace into its record.
fn fold_into_trace(t: &mut TraceIngest, sp: &OtelSpan)
    ensures
        final(t)@ == updated_trace(old(t)@, *sp),
{
    let ghost t0 = old(t)@;
    let start = parse_nano_opt(&sp.start_time_unix_nano);
    match (t.timestamp, start) {
        (Some(c), Some(s)) => {
            if ts_before(s, c) {
                t.timestamp = Some(s);
            }
        },
        (None, Some(s)) => {
            t.timestamp = Some(s);
        },
        _ => {},
    }
    if t.name.is_none() {
        t.name = get_string(&sp.attributes, "langfuse.trace.name");
    }
    if t.user_id.is_none() {
        t.user_id = get_string(&sp.attributes, "user.id");
    }
    if t.session_id.is_none() {
        t.session_id = get_string(&sp.attributes, "session.id");
    }
    if t.tags.len() == 0 {
        match get_string_array(&sp.attributes, "langfuse.trace.tags") {
            Some(v) => {
                t.tags = v;
            },
            None => {},
        }
        proof {
            assert(string_vec_view(t.tags@) =~= (updated_trace(t0, *sp)).tags);
        }
    }
    let pm = get_prefixed_entries(&sp.attributes, "langfuse.trace.metadata.");
    let ghost pm_data = trace_meta_of(*sp);
    let mut replace_meta: bool = false;
    match &mut t.metadata {
        Some(m) => {
            match m {
                JsonVal::Obj(entries) => {
                    let ghost e0 = json_entry_seq_view(entries@);
                    let np = pm.len();
                    let mut k: usize = 0;
                    proof {
                        assert(pm_data.skip(0) =~= pm_data);
                    }
                    while k < np
                        invariant
                            0 <= k <= np,
                            np == pm@.len(),
                            json_entry_seq_view(pm@) == pm_data,
                            obj_merge(e0, pm_data) == obj_merge(
                                json_entry_seq_view(entries@),
                                pm_data.skip(k as int),
                            ),
                        decreases np - k,
                    {
                        proof {
                            crate::json::lemma_json_entry_seq_view(pm@);
                            assert(pm_data.skip(k as int).first() == pm_data[k as int]);
                            assert(pm_data.skip(k as int).drop_first() =~= pm_data.skip(k + 1));
                        }
                        let key = pm[k].0.clone();
                        let val = pm[k].1.clone();
                        entries_insert(entries, key, val);
                        k = k + 1;
                    }
                    proof {
                        crate::json::lemma_json_entry_seq_view(pm@);
                        assert(pm_data.len() == np);
                        assert(pm_data.skip(np as int) =~= Seq::<(Seq<char>, JsonData)>::empty());
                    }
                },
                _ => {},
            }
        },
        None => {
            if pm.len() > 0 {
                replace_meta = true;
            }
        },
    }
    if replace_meta {
        t.metadata = Some(JsonVal::Obj(pm));
    }
    proof {
        crate::json::lemma_json_entry_seq_view(pm@);
        assert(t@ =~= updated_trace(t0, *sp));
    }
}

proof fn lemma_step_valid_found(
    gs: Seq<GroupData>,
    sp: OtelSpan,
    res: Option<OtelResource>,
    tid: UuidVal,
    sid: UuidVal,
    d: Seq<char>,
    i: int,
)
    requires
        0 <= i < gs.len(),
        gs[i].id == tid,
        forall|j: int| 0 <= j < i ==> (#[trigger] gs[j].id) != tid,
    ensures
        step_valid(gs, sp, res, tid, sid, d) == gs.update(
            i,
            GroupData {
                id: tid,
                trace: updated_trace(gs[i].trace, sp),
                observations: gs[i].observations.push(obs_of_span(sp, res, tid, sid, d)),
            },
        ),
    decreases i,
{
    let g2 = GroupData {
        id: tid,
        trace: updated_trace(gs[i].trace, sp),
        observations: gs[i].observations.push(obs_of_span(sp, res, tid, sid, d)),
    };
    if i == 0 {
        assert(step_valid(gs, sp, res, tid, sid, d) =~= gs.update(0, g2));
    } else {
        lemma_step_valid_found(gs.drop_first(), sp, res, tid, sid, d, i - 1);
        assert(gs.drop_first().update(i - 1, g2) =~= gs.update(i, g2).drop_first());
        assert(step_valid(gs, sp, res, tid, sid, d) =~= gs.update(i, g2));
    }
}

proof fn lemma_step_valid_absent(
    gs: Seq<GroupData>,
    sp: OtelSpan,
    res: Option<OtelResource>,
    tid: UuidVal,
    sid: UuidVal,
    d: Seq<char>,
)
    requires
        forall|j: int| 0 <= j < gs.len() ==> (#[trigger] gs[j].id) != tid,
    ensures
        step_valid(gs, sp, res, tid, sid, d) == gs.push(
            GroupData {
                id: tid,
                trace: new_trace_for(tid, sp, d),
                observations: seq![obs_of_span(sp, res, tid, sid, d)],
            },
        ),
    decreases gs.len(),
{
    if gs.len() > 0 {
        lemma_step_valid_absent(gs.drop_first(), sp, res, tid, sid, d);
    }
    assert(step_valid(gs, sp, res, tid, sid, d) =~= gs.push(
        GroupData {
            id: tid,
            trace: new_trace_for(tid, sp, d),
            observations: seq![obs_of_span(sp, res, tid, sid, d)],
        },
    ));
}

proof fn lemma_fold_singleton(
    gs: Seq<GroupData>,
    c: (OtelSpan, Option<OtelResource>),
    d: Seq<char>,
)
    ensures
        fold_groups(gs, seq![c], d) == step_groups(gs, c.0, c.1, d),
{
    let stepped = step_groups(gs, c.0, c.1, d);
    assert(seq![c].first() == c);
    assert(seq![c].drop_first() =~= Seq::<(OtelSpan, Option<OtelResource>)>::empty());
    assert(fold_groups(stepped, Seq::<(OtelSpan, Option<OtelResource>)>::empty(), d) == stepped);
    assert(fold_groups(gs, seq![c], d) == fold_groups(stepped, seq![c].drop_first(), d));
}

/// Folds one span into the groups.
fn process_span(groups: &mut Vec<Group>, sp: &OtelSpan, res: Option<&OtelResource>, d: &String)
    ensures
        groups_view(final(groups)@) == step_groups(
            groups_view(old(groups)@),
            *sp,
            match res {
                Some(x) => Some(*x),
                None => None,
            },
            d@,
        ),
{
    let ghost gs0 = groups_view(groups@);
    let ghost resv: Option<OtelResource> = match res {
        Some(x) => Some(*x),
        None => None,
    };
    let tid = match otlp_trace_id_to_uuid(sp.trace_id.as_str()) {
        Some(u) => {
            proof {
                lemma_be_val_fits_u128(hex_decoded(trim_spaces(sp.trace_id@)));
                assert(span_trace_uuid(*sp) == Some(u));
            }
            u
        },
        None => {
            return;
        },
    };
    let sid = match otlp_span_id_to_uuid(sp.span_id.as_str()) {
        Some(u) => {
            proof {
                lemma_be_val_fits_u128(hex_decoded(trim_spaces(sp.span_id@)));
                assert(span_span_uuid(*sp) == Some(u));
            }
            u
        },
        None => {
            return;
        },
    };
    let obs = make_observation(sp, res, tid, sid, d);
    let n = groups.len();
    let mut i: usize = 0;
    while i < n
        invariant
            0 <= i <= n,
            n == groups@.len(),
            groups@.len() == gs0.len(),
            gs0 == groups_view(groups@),
            gs0 == groups_view(old(groups)@),
            obs@ == obs_of_span(*sp, resv, tid, sid, d@),
            resv == (match res {
                Some(x) => Some(*x),
                None => None,
            }),
            span_trace_uuid(*sp) == Some(tid),
            span_span_uuid(*sp) == Some(sid),
            forall|j: int| 0 <= j < i ==> (#[trigger] gs0[j].id) != tid,
        decreases n - i,
    {
        if groups[i].id == tid {
            proof {
                lemma_step_valid_found(gs0, *sp, resv, tid, sid, d@, i as int);
            }
            let g = groups.remove(i);
            proof {
                assert(g@ == gs0[i as int]);
            }
            let Group { id: gid, trace: mut tr, observations: mut gobs } = g;
            let ghost obs_before = Seq::new(gobs@.len(), |j: int| gobs@[j]@);
            fold_into_trace(&mut tr, sp);
            gobs.push(obs);
            let g = Group { id: gid, trace: tr, observations: gobs };
            let ghost g2 = g@;
            groups.insert(i, g);
            proof {
                assert(g2.observations =~= obs_before.push(obs_of_span(*sp, resv, tid, sid, d@)));
                assert(obs_before =~= gs0[i as int].observations);
                assert(g2 =~= (GroupData {
                    id: tid,
                    trace: updated_trace(gs0[i as int].trace, *sp),
                    observations: gs0[i as int].observations.push(
                        obs_of_span(*sp, resv, tid, sid, d@),
                    ),
                }));
                assert(groups_view(groups@) =~= gs0.update(i as int, g2));
            }
            return;
        }
        i = i + 1;
    }
    proof {
        lemma_step_valid_absent(gs0, *sp, resv, tid, sid, d@);
    }
    let trace = start_trace(tid, sp, d);
    let mut observations: Vec<ObservationIngest> = Vec::new();
    observations.push(obs);
    let g = Group { id: tid, trace, observations };
    proof {
        assert(g@.trace == new_trace_for(tid, *sp, d@));
        assert(g@.observations =~= seq![obs_of_span(*sp, resv, tid, sid, d@)]);
        assert(g@ =~= (GroupData {
            id: tid,
            trace: new_trace_for(tid, *sp, d@),
            observations: seq![obs_of_span(*sp, resv, tid, sid, d@)],
        }));
    }
    groups.push(g);
    proof {
        assert(groups_view(groups@) =~= gs0.push(
            GroupData {
                id: tid,
                trace: new_trace_for(tid, *sp, d@),
                observations: seq![obs_of_span(*sp, resv, tid, sid, d@)],
            },
        ));
    }
}

/// Maps a decoded OTLP export to ingestion envelopes: one per distinct trace
/// id, each with the aggregated trace record and that trace's observations in
/// span order. Spans whose identifiers do not decode are dropped silently.
pub fn map_otel_to_batches(export: &OtelExport, default_project_id: &String) -> (r: Vec<
    BatchIngestRequest,
>)
    ensures
        Seq::new(r@.len(), |i: int| r@[i]@) == mapped_batches(*export, default_project_id@),
{
    let ghost all = flatten_export(export.resource_spans@);
    let flat = collect_spans(export);
    let ghost ctx = ctx_view(flat@);
    let mut groups: Vec<Group> = Vec::new();
    let n = flat.len();
    let mut i: usize = 0;
    proof {
        assert(groups_view(groups@) =~= Seq::<GroupData>::empty());
        assert(ctx.take(0) =~= Seq::<(OtelSpan, Option<OtelResource>)>::empty());
    }
    while i < n
        invariant
            0 <= i <= n,
            n == flat@.len(),
            ctx == ctx_view(flat@),
            groups_view(groups@) == fold_groups(Seq::empty(), ctx.take(i as int), default_project_id@),
        decreases n - i,
    {
        let (sp, res) = flat[i];
        proof {
            assert(ctx[i as int] == (*sp, match res {
                Some(x) => Some(*x),
                None => None,
            }));
        }
        let ghost before = groups_view(groups@);
        process_span(&mut groups, sp, res, default_project_id);
        proof {
            assert(ctx.take(i + 1) =~= ctx.take(i as int).push(ctx[i as int]));
            lemma_fold_groups_concat(
                Seq::empty(),
                ctx.take(i as int),
                seq![ctx[i as int]],
                default_project_id@,
            );
            assert(ctx.take(i as int) + seq![ctx[i as int]] =~= ctx.take(i + 1));
            lemma_fold_singleton(before, ctx[i as int], default_project_id@);
        }
        i = i + 1;
    }
    proof {
        assert(ctx.take(n as int) =~= ctx);
    }
    let ghost final_groups = groups_view(groups@);
    let mut out: Vec<BatchIngestRequest> = Vec::new();
    let ghost total = groups@.len();
    proof {
        assert(final_groups.skip(0) =~= final_groups);
    }
    while groups.len() > 0
        invariant
            out@.len() + groups@.len() == total,
            final_groups.len() == total,
            groups_view(groups@) == final_groups.skip(out@.len() as int),
            forall|j: int|
                0 <= j < out@.len() ==> (#[trigger] out@[j]@) == (BatchIngestData {
                    trace: Some(final_groups[j].trace),
                    observations: final_groups[j].observations,
                }),
        decreases groups@.len(),
    {
        let ghost k = out@.len() as int;
        let ghost gprev = groups_view(groups@);
        proof {
            assert(gprev[0] == final_groups[k]);
        }
        let g = groups.remove(0);
        proof {
            assert(g@ == final_groups[k]);
        }
        out.push(BatchIngestRequest { trace: Some(g.trace), observations: g.observations });
        proof {
            assert(groups_view(groups@) =~= gprev.drop_first());
            assert(gprev.drop_first() =~= final_groups.skip(k + 1));
            assert(out@[k]@.observations =~= final_groups[k].observations);
            assert(out@[k]@ =~= (BatchIngestData {
                trace: Some(final_groups[k].trace),
                observations: final_groups[k].observations,
            }));
        }
    }
    proof {
        assert(Seq::new(out@.len(), |i: int| out@[i]@) =~= batches_of(final_groups));
    }
    out
}

// --- trace-timestamp minimality ---------------------------------------------

/// The first group carrying `id`, if any.
pub open spec fn group_of(gs: Seq<GroupData>, id: UuidVal) -> Option<GroupData>
    decreases gs.len(),
{
    if gs.len() == 0 {
        None
    } else if gs.first().id == id {
        Some(gs.first())
    } else {
        group_of(gs.drop_first(), id)
    }
}

/// The accumulated minimum start instant over the kept spans of trace `id`.
pub open spec fn min_start(
    t0: Option<Timestamp>,
    ctx: Seq<(OtelSpan, Option<OtelResource>)>,
    id: UuidVal,
) -> Option<Timestamp>
    decreases ctx.len(),
{
    if ctx.len() == 0 {
        t0
    } else {
        let sp = ctx.first().0;
        let t1 = if span_trace_uuid(sp) == Some(id) && span_valid(sp) {
            min_ts_opt(t0, nano_ts(sp.start_time_unix_nano))
        } else {
            t0
        };
        min_start(t1, ctx.drop_first(), id)
    }
}

proof fn lemma_step_valid_group_of(
    gs: Seq<GroupData>,
    sp: OtelSpan,
    res: Option<OtelResource>,
    tid: UuidVal,
    sid: UuidVal,
    d: Seq<char>,
    id: UuidVal,
)
    ensures
        group_of(step_valid(gs, sp, res, tid, sid, d), id) == (if id == tid {
            match group_of(gs, id) {
                Some(g) => Some(
                    GroupData {
                        id: tid,
                        trace: updated_trace(g.trace, sp),
                        observations: g.observations.push(obs_of_span(sp, res, tid, sid, d)),
                    },
                ),
                None => Some(
                    GroupData {
                        id: tid,
                        trace: new_trace_for(tid, sp, d),
                        observations: seq![obs_of_span(sp, res, tid, sid, d)],
                    },
                ),
            }
        } else {
            group_of(gs, id)
        }),
    decreases gs.len(),
{
    let r = step_valid(gs, sp, res, tid, sid, d);
    if gs.len() == 0 {
        assert(r.len() == 1);
        assert(r.first() == (GroupData {
            id: tid,
            trace: new_trace_for(tid, sp, d),
            observations: seq![obs_of_span(sp, res, tid, sid, d)],
        }));
        assert(r.drop_first() =~= Seq::<GroupData>::empty());
        if id == tid {
            assert(group_of(r, id) == Some(r.first()));
        } else {
            assert(group_of(r, id) == group_of(r.drop_first(), id));
            assert(group_of(r, id) is None);
        }
    } else if gs.first().id == tid {
        assert(r.len() == gs.len());
        assert(r.first() == (GroupData {
            id: tid,
            trace: updated_trace(gs.first().trace, sp),
            observations: gs.first().observations.push(obs_of_span(sp, res, tid, sid, d)),
        }));
        assert(r.drop_first() =~= gs.drop_first());
        if id == tid {
            assert(group_of(r, id) == Some(r.first()));
            assert(group_of(gs, id) == Some(gs.first()));
        } else {
            assert(group_of(r, id) == group_of(gs.drop_first(), id));
            assert(group_of(gs, id) == group_of(gs.drop_first(), id));
        }
    } else {
        lemma_step_valid_group_of(gs.drop_first(), sp, res, tid, sid, d, id);
        assert(r.len() == step_valid(gs.drop_first(), sp, res, tid, sid, d).len() + 1);
        assert(r.first() == gs.first());
        assert(r.drop_first() =~= step_valid(gs.drop_first(), sp, res, tid, sid, d));
        if id == gs.first().id {
            assert(group_of(r, id) == Some(gs.first()));
            assert(group_of(gs, id) == Some(gs.first()));
        } else {
            assert(group_of(r, id) == group_of(r.drop_first(), id));
            assert(group_of(gs, id) == group_of(gs.drop_first(), id));
        }
    }
}

/// The timestamp a fold leaves on the group of `id` is the running minimum
/// of that trace's kept span starts.
proof fn lemma_fold_min_start(
    gs: Seq<GroupData>,
    ctx: Seq<(OtelSpan, Option<OtelResource>)>,
    d: Seq<char>,
    id: UuidVal,
)
    ensures
        match group_of(fold_groups(gs, ctx, d), id) {
            Some(g) => match group_of(gs, id) {
                Some(g0) => g.trace.timestamp == min_start(g0.trace.timestamp, ctx, id),
                None => g.trace.timestamp == min_start(None, ctx, id),
            },
            None => group_of(gs, id) is None,
        },
    decreases ctx.len(),
{
    if ctx.len() > 0 {
        let sp = ctx.first().0;
        let res = ctx.first().1;
        let gs1 = step_groups(gs, sp, res, d);
        match span_trace_uuid(sp) {
            Some(tid) => match span_span_uuid(sp) {
                Some(sid) => {
                    lemma_step_valid_group_of(gs, sp, res, tid, sid, d, id);
                },
                None => {},
            },
            None => {},
        }
        lemma_fold_min_start(gs1, ctx.drop_first(), d, id);
    }
}

/// The accumulated minimum really is minimal, and attained.
proof fn lemma_min_start_minimal(
    t0: Option<Timestamp>,
    ctx: Seq<(OtelSpan, Option<OtelResource>)>,
    id: UuidVal,
)
    ensures
        match min_start(t0, ctx, id) {
            Some(m) => {
                &&& (t0 == Some(m) || exists|k: int|
                    0 <= k < ctx.len() && span_trace_uuid(#[trigger] ctx[k].0) == Some(id)
                        && span_valid(ctx[k].0) && nano_ts(ctx[k].0.start_time_unix_nano) == Some(
                        m,
                    ))
                &&& forall|k: int|
                    0 <= k < ctx.len() && span_trace_uuid(#[trigger] ctx[k].0) == Some(id)
                        && span_valid(ctx[k].0) && nano_ts(
                        ctx[k].0.start_time_unix_nano,
                    ) is Some ==> crate::codec::ts_le(m, nano_ts(ctx[k].0.start_time_unix_nano).unwrap())
                &&& (match t0 {
                    Some(v0) => crate::codec::ts_le(m, v0),
                    None => true,
                })
            },
            None => {
                &&& t0 is None
                &&& forall|k: int|
                    0 <= k < ctx.len() && span_trace_uuid(#[trigger] ctx[k].0) == Some(id)
                        && span_valid(ctx[k].0) ==> nano_ts(ctx[k].0.start_time_unix_nano) is None
            },
        },
    decreases ctx.len(),
{
    if ctx.len() > 0 {
        let sp = ctx.first().0;
        let t1 = if span_trace_uuid(sp) == Some(id) && span_valid(sp) {
            min_ts_opt(t0, nano_ts(sp.start_time_unix_nano))
        } else {
            t0
        };
        lemma_min_start_minimal(t1, ctx.drop_first(), id);
        assert forall|k: int| 1 <= k < ctx.len() implies ctx[k] == ctx.drop_first()[k - 1] by {}
    }
}

/// Law: for every emitted envelope, the trace's timestamp is the earliest
/// start instant among the kept spans of that trace — no later than any of
/// them, and equal to one of them; it is absent exactly when no kept span of
/// the trace carries a start instant.
pub proof fn lemma_trace_timestamp_minimal(export: OtelExport, d: Seq<char>, id: UuidVal)
    ensures
        ({
            let ctx = flatten_export(export.resource_spans@);
            match group_of(fold_groups(Seq::empty(), ctx, d), id) {
                Some(g) => match g.trace.timestamp {
                    Some(m) => {
                        &&& exists|k: int|
                            0 <= k < ctx.len() && span_trace_uuid(#[trigger] ctx[k].0) == Some(id)
                                && span_valid(ctx[k].0) && nano_ts(
                                ctx[k].0.start_time_unix_nano,
                            ) == Some(m)
                        &&& forall|k: int|
                            0 <= k < ctx.len() && span_trace_uuid(#[trigger] ctx[k].0) == Some(id)
                                && span_valid(ctx[k].0) && nano_ts(
                                ctx[k].0.start_time_unix_nano,
                            ) is Some ==> crate::codec::ts_le(
                                m,
                                nano_ts(ctx[k].0.start_time_unix_nano).unwrap(),
                            )
                    },
                    None => forall|k: int|
                        0 <= k < ctx.len() && span_trace_uuid(#[trigger] ctx[k].0) == Some(id)
                            && span_valid(ctx[k].0) ==> nano_ts(
                            ctx[k].0.start_time_unix_nano,
                        ) is None,
                },
                None => true,
            }
        }),
{
    let ctx = flatten_export(export.resource_spans@);
    lemma_fold_min_start(Seq::empty(), ctx, d, id);
    lemma_min_start_minimal(None, ctx, id);
}

// --- one envelope per trace ---------------------------------------------------

/// Group identifiers are pairwise distinct.
pub open spec fn groups_distinct(gs: Seq<GroupData>) -> bool {
    forall|i: int, j: int|
        0 <= i < j < gs.len() ==> (#[trigger] gs[i].id) != (#[trigger] gs[j].id)
}

proof fn lemma_group_of_some(gs: Seq<GroupData>, k: int)
    requires
        0 <= k < gs.len(),
    ensures
        group_of(gs, gs[k].id) is Some,
    decreases k,
{
    if gs.first().id != gs[k].id {
        lemma_group_of_some(gs.drop_first(), k - 1);
    }
}

proof fn lemma_group_of_none(gs: Seq<GroupData>, id: UuidVal)
    requires
        forall|j: int| 0 <= j < gs.len() ==> (#[trigger] gs[j].id) != id,
    ensures
        group_of(gs, id) is None,
    decreases gs.len(),
{
    if gs.len() > 0 {
        lemma_group_of_none(gs.drop_first(), id);
    }
}

proof fn lemma_step_valid_distinct(
    gs: Seq<GroupData>,
    sp: OtelSpan,
    res: Option<OtelResource>,
    tid: UuidVal,
    sid: UuidVal,
    d: Seq<char>,
)
    requires
        groups_distinct(gs),
    ensures
        groups_distinct(step_valid(gs, sp, res, tid, sid, d)),
    decreases gs.len(),
{
    let r = step_valid(gs, sp, res, tid, sid, d);
    if gs.len() == 0 {
    } else if gs.first().id == tid {
        assert forall|i: int, j: int|
            0 <= i < j < r.len() implies (#[trigger] r[i].id) != (#[trigger] r[j].id) by {
            assert(r[i].id == gs[i].id);
            assert(r[j].id == gs[j].id);
        }
    } else {
        assert(groups_distinct(gs.drop_first())) by {
            assert(forall|i: int, j: int|
                0 <= i < j < gs.drop_first().len() ==> (#[trigger] gs.drop_first()[i].id)
                    != (#[trigger] gs.drop_first()[j].id));
        }
        lemma_step_valid_distinct(gs.drop_first(), sp, res, tid, sid, d);
        let rest = step_valid(gs.drop_first(), sp, res, tid, sid, d);
        assert(r == seq![gs.first()] + rest);
        assert forall|i: int, j: int|
            0 <= i < j < r.len() implies (#[trigger] r[i].id) != (#[trigger] r[j].id) by {
            if i == 0 {
                assert(r[j] == rest[j - 1]);
                if rest[j - 1].id == gs.first().id {
                    lemma_group_of_some(rest, j - 1);
                    lemma_step_valid_group_of(gs.drop_first(), sp, res, tid, sid, d, gs.first().id);
                    assert(forall|w: int|
                        0 <= w < gs.drop_first().len() ==> (#[trigger] gs.drop_first()[w].id)
                            != gs.first().id);
                    lemma_group_of_none(gs.drop_first(), gs.first().id);
                    assert(false);
                }
            } else {
                assert(r[i] == rest[i - 1]);
                assert(r[j] == rest[j - 1]);
            }
        }
    }
}

proof fn lemma_fold_groups_distinct(
    gs: Seq<GroupData>,
    ctx: Seq<(OtelSpan, Option<OtelResource>)>,
    d: Seq<char>,
)
    requires
        groups_distinct(gs),
    ensures
        groups_distinct(fold_groups(gs, ctx, d)),
    decreases ctx.len(),
{
    if ctx.len() > 0 {
        let sp = ctx.first().0;
        let res = ctx.first().1;
        match span_trace_uuid(sp) {
            Some(tid) => match span_span_uuid(sp) {
                Some(sid) => {
                    lemma_step_valid_distinct(gs, sp, res, tid, sid, d);
                },
                None => {},
            },
            None => {},
        }
        lemma_fold_groups_distinct(step_groups(gs, sp, res, d), ctx.drop_first(), d);
    }
}

/// Law: the mapping emits one envelope per distinct trace identifier — no
/// two emitted envelopes carry the same trace.
pub proof fn lemma_one_envelope_per_trace(export: OtelExport, d: Seq<char>)
    ensures
        ({
            let bs = mapped_batches(export, d);
            forall|i: int, j: int|
                0 <= i < j < bs.len() ==> (#[trigger] bs[i].trace).unwrap().id != (#[trigger] bs[j].trace).unwrap().id
        }),
{
    let gs = fold_groups(Seq::empty(), flatten_export(export.resource_spans@), d);
    lemma_fold_groups_distinct(Seq::empty(), flatten_export(export.resource_spans@), d);
    assert forall|i: int, j: int|
        0 <= i < j < batches_of(gs).len() implies (#[trigger] batches_of(gs)[i].trace).unwrap().id
        != (#[trigger] batches_of(gs)[j].trace).unwrap().id by {
        assert(gs[i].id != gs[j].id);
        assert(batches_of(gs)[i].trace == Some(gs[i].trace));
        assert(gs[i].trace.id == gs[i].id && gs[j].trace.id == gs[j].id) by {
            lemma_fold_group_trace_id(Seq::empty(), flatten_export(export.resource_spans@), d, i);
            lemma_fold_group_trace_id(Seq::empty(), flatten_export(export.resource_spans@), d, j);
        }
    }
}

/// Every group's trace record carries the group's identifier.
pub open spec fn groups_ids_consistent(gs: Seq<GroupData>) -> bool {
    forall|k: int| 0 <= k < gs.len() ==> (#[trigger] gs[k]).trace.id == gs[k].id
}

proof fn lemma_step_valid_ids_consistent(
    gs: Seq<GroupData>,
    sp: OtelSpan,
    res: Option<OtelResource>,
    tid: UuidVal,
    sid: UuidVal,
    d: Seq<char>,
)
    requires
        groups_ids_consistent(gs),
    ensures
        groups_ids_consistent(step_valid(gs, sp, res, tid, sid, d)),
    decreases gs.len(),
{
    let r = step_valid(gs, sp, res, tid, sid, d);
    if gs.len() == 0 {
    } else if gs.first().id == tid {
        assert forall|k: int| 0 <= k < r.len() implies (#[trigger] r[k]).trace.id == r[k].id by {
            if k > 0 {
                assert(r[k] == gs[k]);
            }
        }
    } else {
        assert(groups_ids_consistent(gs.drop_first())) by {
            assert(forall|k: int|
                0 <= k < gs.drop_first().len() ==> (#[trigger] gs.drop_first()[k]).trace.id
                    == gs.drop_first()[k].id);
        }
        lemma_step_valid_ids_consistent(gs.drop_first(), sp, res, tid, sid, d);
        let rest = step_valid(gs.drop_first(), sp, res, tid, sid, d);
        assert(r == seq![gs.first()] + rest);
        assert forall|k: int| 0 <= k < r.len() implies (#[trigger] r[k]).trace.id == r[k].id by {
            if k > 0 {
                assert(r[k] == rest[k - 1]);
            }
        }
    }
}

proof fn lemma_fold_ids_consistent(
    gs: Seq<GroupData>,
    ctx: Seq<(OtelSpan, Option<OtelResource>)>,
    d: Seq<char>,
)
    requires
        groups_ids_consistent(gs),
    ensures
        groups_ids_consistent(fold_groups(gs, ctx, d)),
    decreases ctx.len(),
{
    if ctx.len() > 0 {
        let sp = ctx.first().0;
        let res = ctx.first().1;
        match span_trace_uuid(sp) {
            Some(tid) => match span_span_uuid(sp) {
                Some(sid) => {
                    lemma_step_valid_ids_consistent(gs, sp, res, tid, sid, d);
                },
                None => {},
            },
            None => {},
        }
        lemma_fold_ids_consistent(step_groups(gs, sp, res, d), ctx.drop_first(), d);
    }
}

proof fn lemma_fold_group_trace_id(
    gs: Seq<GroupData>,
    ctx: Seq<(OtelSpan, Option<OtelResource>)>,
    d: Seq<char>,
    k: int,
)
    requires
        groups_ids_consistent(gs),
        0 <= k < fold_groups(gs, ctx, d).len(),
    ensures
        fold_groups(gs, ctx, d)[k].trace.id == fold_groups(gs, ctx, d)[k].id,
{
    lemma_fold_ids_consistent(gs, ctx, d);
}

} // verus!
