use xtrace::codec::otlp_trace_id_to_uuid;
use xtrace::json::JsonVal;
use xtrace::mapper::map_otel_to_batches;
use xtrace::otlp::{
    OtelExport, OtelKeyValue, OtelResource, OtelResourceSpans, OtelScopeSpans, OtelSpan,
    OtelValue,
};

fn sattr(key: &str, value: &str) -> OtelKeyValue {
    OtelKeyValue {
        key: key.to_string(),
        value: Some(OtelValue::Str(value.to_string())),
    }
}

fn span(
    trace_id: &str,
    span_id: &str,
    start: Option<&str>,
    attrs: Vec<OtelKeyValue>,
) -> OtelSpan {
    OtelSpan {
        trace_id: trace_id.to_string(),
        span_id: span_id.to_string(),
        parent_span_id: None,
        name: "op".to_string(),
        start_time_unix_nano: start.map(|s| s.to_string()),
        end_time_unix_nano: None,
        attributes: attrs,
    }
}

fn export(spans: Vec<OtelSpan>) -> OtelExport {
    OtelExport {
        resource_spans: vec![OtelResourceSpans {
            resource: Some(OtelResource {
                attributes: vec![sattr("service.name", "svc")],
            }),
            scope_spans: vec![OtelScopeSpans { spans }],
        }],
    }
}

const TRACE_A: &str = "0123456789abcdef0123456789abcdef";
const TRACE_B: &str = "ffffffffffffffffffffffffffffffff";

#[test]
fn single_generation_span_maps_to_one_envelope() {
    let sp = span(
        TRACE_A,
        "abcdef0123456789",
        Some("1700000000000000000"),
        vec![
            sattr("langfuse.observation.type", "generation"),
            sattr("langfuse.generation.model", "gpt-4"),
            sattr("langfuse.observation.input", "{\"q\":1}"),
            sattr(
                "langfuse.observation.usage_details",
                "{\"promptTokens\":10,\"completionTokens\":20,\"totalTokens\":30}",
            ),
        ],
    );
    let batches = map_otel_to_batches(&export(vec![sp]), &"default".to_string());
    assert_eq!(batches.len(), 1);
    let trace = batches[0].trace.as_ref().unwrap();
    assert_eq!(trace.id, otlp_trace_id_to_uuid(TRACE_A).unwrap());
    assert_eq!(trace.timestamp.unwrap().secs, 1_700_000_000);
    assert_eq!(trace.environment.as_deref(), Some("default"));
    assert_eq!(trace.project_id.as_deref(), Some("default"));
    assert_eq!(batches[0].observations.len(), 1);
    let obs = &batches[0].observations[0];
    assert_eq!(obs.obs_type.as_deref(), Some("GENERATION"));
    assert_eq!(obs.model.as_deref(), Some("gpt-4"));
    assert_eq!(obs.name.as_deref(), Some("op"));
    assert_eq!(obs.prompt_tokens, Some(10));
    assert_eq!(obs.completion_tokens, Some(20));
    assert_eq!(obs.total_tokens, Some(30));
    let usage = obs.usage.as_ref().unwrap();
    assert_eq!(usage.get("input").unwrap().as_int(), Some(10));
    assert_eq!(usage.get("total").unwrap().as_int(), Some(30));
    match obs.input.as_ref().unwrap().get("q") {
        Some(v) => assert_eq!(v.as_int(), Some(1)),
        None => panic!("input must parse as JSON"),
    }
    let meta = obs.metadata.as_ref().unwrap();
    match meta.get("otel.resource") {
        Some(JsonVal::Obj(entries)) => assert_eq!(entries[0].0, "service.name"),
        _ => panic!("resource attributes must ride under otel.resource"),
    }
}

#[test]
fn malformed_spans_are_dropped_silently() {
    let good = span(TRACE_A, "abcdef0123456789", None, vec![]);
    let bad_trace = span("xyz", "abcdef0123456789", None, vec![]);
    let bad_span = span(TRACE_B, "123", None, vec![]);
    let batches = map_otel_to_batches(
        &export(vec![bad_trace, good, bad_span]),
        &"default".to_string(),
    );
    assert_eq!(batches.len(), 1);
    assert_eq!(batches[0].observations.len(), 1);
}

#[test]
fn spans_of_one_trace_aggregate_first_writer_wins() {
    let sp1 = span(
        TRACE_A,
        "1111111111111111",
        Some("2000000000000000000"),
        vec![sattr("langfuse.trace.name", "first")],
    );
    let sp2 = span(
        TRACE_A,
        "2222222222222222",
        Some("1000000000000000000"),
        vec![
            sattr("langfuse.trace.name", "second"),
            sattr("user.id", "u1"),
            sattr("langfuse.trace.metadata.k", "v"),
        ],
    );
    let sp3 = span(TRACE_B, "3333333333333333", None, vec![]);
    let batches = map_otel_to_batches(&export(vec![sp1, sp2, sp3]), &"p".to_string());
    assert_eq!(batches.len(), 2);
    let t = batches[0].trace.as_ref().unwrap();
    assert_eq!(t.name.as_deref(), Some("first"));
    assert_eq!(t.user_id.as_deref(), Some("u1"));
    assert_eq!(t.timestamp.unwrap().secs, 1_000_000_000);
    assert_eq!(batches[0].observations.len(), 2);
    match t.metadata.as_ref().unwrap() {
        JsonVal::Obj(entries) => {
            assert_eq!(entries.len(), 1);
            assert_eq!(entries[0].0, "k");
        },
        _ => panic!("trace metadata must be an object"),
    }
    let t2 = batches[1].trace.as_ref().unwrap();
    assert!(t2.name.is_none());
    assert!(t2.timestamp.is_none());
    assert_eq!(batches[1].observations.len(), 1);
}

#[test]
fn observation_type_uppercases_beyond_ascii() {
    let sp = span(
        TRACE_A,
        "abcdef0123456789",
        None,
        vec![sattr("langfuse.observation.type", "g\u{e9}n\u{e9}ration")],
    );
    let batches = map_otel_to_batches(&export(vec![sp]), &"default".to_string());
    assert_eq!(
        batches[0].observations[0].obs_type.as_deref(),
        Some("G\u{c9}N\u{c9}RATION")
    );
}

#[test]
fn parent_span_ids_follow_the_zero_rules() {
    let mut with_parent = span(TRACE_A, "1111111111111111", None, vec![]);
    with_parent.parent_span_id = Some("2222222222222222".to_string());
    let mut zero_parent = span(TRACE_A, "3333333333333333", None, vec![]);
    zero_parent.parent_span_id = Some("0000000000000000".to_string());
    let mut empty_parent = span(TRACE_A, "4444444444444444", None, vec![]);
    empty_parent.parent_span_id = Some("".to_string());
    let batches = map_otel_to_batches(
        &export(vec![with_parent, zero_parent, empty_parent]),
        &"default".to_string(),
    );
    let obs = &batches[0].observations;
    assert!(obs[0].parent_observation_id.is_some());
    assert!(obs[1].parent_observation_id.is_none());
    assert!(obs[2].parent_observation_id.is_none());
}
