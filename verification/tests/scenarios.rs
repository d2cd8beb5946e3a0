//! End-to-end flows through the library: OTLP export to detail view, and
//! batch ingestion twice over.

use xtrace::codec::otlp_trace_id_to_uuid;
use xtrace::ingest::{BatchIngestRequest, ObservationIngest, TraceIngest};
use xtrace::codec::{Timestamp, UuidVal};
use xtrace::mapper::map_otel_to_batches;
use xtrace::otlp::{OtelExport, OtelKeyValue, OtelResourceSpans, OtelScopeSpans, OtelSpan, OtelValue};
use xtrace::query::get_trace;
use xtrace::store::Store;

fn sattr(key: &str, value: &str) -> OtelKeyValue {
    OtelKeyValue {
        key: key.to_string(),
        value: Some(OtelValue::Str(value.to_string())),
    }
}

#[test]
fn one_otlp_generation_lands_as_a_stored_trace() {
    let export = OtelExport {
        resource_spans: vec![OtelResourceSpans {
            resource: None,
            scope_spans: vec![OtelScopeSpans {
                spans: vec![OtelSpan {
                    trace_id: "0123456789abcdef0123456789abcdef".to_string(),
                    span_id: "abcdef0123456789".to_string(),
                    parent_span_id: None,
                    name: "generate".to_string(),
                    start_time_unix_nano: Some("1700000000000000000".to_string()),
                    end_time_unix_nano: Some("1700000001000000000".to_string()),
                    attributes: vec![
                        sattr("langfuse.observation.type", "generation"),
                        sattr("langfuse.generation.model", "gpt-4"),
                        sattr("langfuse.observation.input", "{\"q\":1}"),
                        sattr(
                            "langfuse.observation.usage_details",
                            "{\"promptTokens\":10,\"completionTokens\":20,\"totalTokens\":30}",
                        ),
                    ],
                }],
            }],
        }],
    };
    let batches = map_otel_to_batches(&export, &"default".to_string());
    let mut store = Store::new();
    let now = Timestamp { secs: 1_700_000_100, nanos: 0 };
    for b in &batches {
        store.apply_batch(b, &"default".to_string(), now);
    }
    let id = otlp_trace_id_to_uuid("0123456789abcdef0123456789abcdef").unwrap();
    assert_eq!(id.hyphenated(), "01234567-89ab-cdef-0123-456789abcdef");
    let detail = get_trace(&store, id).unwrap();
    // 1700000000 seconds is 2023-11-14T22:13:20Z
    assert_eq!(detail.timestamp.secs, 1_700_000_000);
    assert_eq!(detail.observations.len(), 1);
    let v = &detail.observations[0];
    assert_eq!(v.obs_type, "GENERATION");
    assert_eq!(v.model.as_deref(), Some("gpt-4"));
    assert_eq!(v.usage.input, 10);
    assert_eq!(v.usage.output, 20);
    assert_eq!(v.usage.total, 30);
    assert_eq!(v.end_time.unwrap().secs, 1_700_000_001);
}

#[test]
fn ingesting_the_same_batch_twice_keeps_one_observation() {
    let a: u128 = 0xA;
    let b: u128 = 0xB;
    let make = || BatchIngestRequest {
        trace: Some(TraceIngest {
            id: UuidVal { value: a },
            timestamp: None,
            name: Some("t1".to_string()),
            input: None,
            output: None,
            session_id: None,
            release: None,
            version: None,
            user_id: None,
            metadata: None,
            tags: vec!["x".to_string()],
            public: None,
            environment: None,
            external_id: None,
            bookmarked: None,
            latency: None,
            total_cost: None,
            project_id: None,
        }),
        observations: vec![ObservationIngest {
            id: UuidVal { value: b },
            trace_id: UuidVal { value: a },
            obs_type: Some("SPAN".to_string()),
            name: None,
            start_time: None,
            end_time: None,
            completion_start_time: None,
            model: None,
            model_parameters: None,
            input: None,
            output: None,
            usage: None,
            level: None,
            status_message: None,
            parent_observation_id: None,
            prompt_id: None,
            prompt_name: None,
            prompt_version: None,
            model_id: None,
            input_price: None,
            output_price: None,
            total_price: None,
            calculated_input_cost: None,
            calculated_output_cost: None,
            calculated_total_cost: None,
            latency: None,
            time_to_first_token: None,
            completion_tokens: None,
            prompt_tokens: None,
            total_tokens: None,
            unit: None,
            metadata: None,
            environment: None,
            project_id: None,
        }],
    };
    let mut store = Store::new();
    let now = Timestamp { secs: 1000, nanos: 0 };
    store.apply_batch(&make(), &"default".to_string(), now);
    store.apply_batch(&make(), &"default".to_string(), now);
    let detail = get_trace(&store, UuidVal { value: a }).unwrap();
    assert_eq!(detail.name.as_deref(), Some("t1"));
    assert_eq!(detail.tags, vec!["x".to_string()]);
    assert_eq!(detail.observations.len(), 1);
    assert_eq!(detail.observations[0].id, UuidVal { value: b });
    assert_eq!(detail.observations[0].obs_type, "SPAN");
}
