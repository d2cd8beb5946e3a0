use xtrace::codec::{Timestamp, UuidVal};
use xtrace::ingest::{BatchIngestRequest, ObservationIngest, TraceIngest};
use xtrace::store::Store;

fn uid(n: u128) -> UuidVal {
    UuidVal { value: n }
}

fn ts(secs: i64) -> Timestamp {
    Timestamp { secs, nanos: 0 }
}

fn trace(id: u128) -> TraceIngest {
    TraceIngest {
        id: uid(id),
        timestamp: None,
        name: None,
        input: None,
        output: None,
        session_id: None,
        release: None,
        version: None,
        user_id: None,
        metadata: None,
        tags: Vec::new(),
        public: None,
        environment: None,
        external_id: None,
        bookmarked: None,
        latency: None,
        total_cost: None,
        project_id: None,
    }
}

fn obs(id: u128, trace_id: u128) -> ObservationIngest {
    ObservationIngest {
        id: uid(id),
        trace_id: uid(trace_id),
        obs_type: None,
        name: None,
        start_time: None,
        end_time: None,
        completion_start_time: None,
        model: None,
        model_parameters: None,
        input: None,
        output: None,
        usage: None,
        level: None,
        status_message: None,
        parent_observation_id: None,
        prompt_id: None,
        prompt_name: None,
        prompt_version: None,
        model_id: None,
        input_price: None,
        output_price: None,
        total_price: None,
        calculated_input_cost: None,
        calculated_output_cost: None,
        calculated_total_cost: None,
        latency: None,
        time_to_first_token: None,
        completion_tokens: None,
        prompt_tokens: None,
        total_tokens: None,
        unit: None,
        metadata: None,
        environment: None,
        project_id: None,
    }
}

#[test]
fn upsert_applies_defaults_and_creates_rows() {
    let mut store = Store::new();
    let mut t = trace(1);
    t.name = Some("t1".to_string());
    t.timestamp = Some(ts(100));
    let batch = BatchIngestRequest { trace: Some(t), observations: vec![obs(2, 1)] };
    store.apply_batch(&batch, &"proj".to_string(), ts(500));
    assert_eq!(store.traces.len(), 1);
    assert_eq!(store.observations.len(), 1);
    let row = store.find_trace(uid(1)).unwrap();
    assert_eq!(row.name.as_deref(), Some("t1"));
    assert_eq!(row.project_id, "proj");
    assert_eq!(row.environment, "default");
    assert_eq!(row.timestamp, ts(100));
    assert!(!row.public);
    let orow = &store.observations[0];
    assert_eq!(orow.obs_type, "GENERATION");
    assert_eq!(orow.environment, "default");
    assert_eq!(orow.project_id, "proj");
    assert_eq!(orow.created_at, ts(500));
}

#[test]
fn observation_before_its_trace_materializes_a_stub() {
    let mut store = Store::new();
    let batch = BatchIngestRequest { trace: None, observations: vec![obs(7, 9)] };
    store.apply_batch(&batch, &"proj".to_string(), ts(50));
    let stub = store.find_trace(uid(9)).unwrap();
    assert!(stub.name.is_none());
    assert_eq!(stub.timestamp, ts(50));
    assert_eq!(stub.project_id, "proj");
    // a later full trace replaces the stub's columns but keeps created_at
    let mut t = trace(9);
    t.name = Some("late".to_string());
    let batch2 = BatchIngestRequest { trace: Some(t), observations: vec![] };
    store.apply_batch(&batch2, &"proj".to_string(), ts(80));
    let row = store.find_trace(uid(9)).unwrap();
    assert_eq!(row.name.as_deref(), Some("late"));
    assert_eq!(row.created_at, ts(50));
    assert_eq!(row.updated_at, ts(80));
    assert_eq!(store.traces.len(), 1);
}

#[test]
fn applying_the_same_batch_twice_changes_nothing_but_updated_at() {
    let mut once = Store::new();
    let mut twice = Store::new();
    let make = || {
        let mut t = trace(1);
        t.name = Some("t1".to_string());
        t.tags = vec!["x".to_string()];
        t.timestamp = Some(ts(10));
        BatchIngestRequest { trace: Some(t), observations: vec![obs(2, 1)] }
    };
    once.apply_batch(&make(), &"p".to_string(), ts(100));
    twice.apply_batch(&make(), &"p".to_string(), ts(100));
    twice.apply_batch(&make(), &"p".to_string(), ts(100));
    assert_eq!(twice.traces.len(), 1);
    assert_eq!(twice.observations.len(), 1);
    let a = once.find_trace(uid(1)).unwrap();
    let b = twice.find_trace(uid(1)).unwrap();
    assert_eq!(a.name, b.name);
    assert_eq!(a.tags, b.tags);
    assert_eq!(a.created_at, b.created_at);
    assert_eq!(a.updated_at, b.updated_at);
    assert_eq!(once.observations[0].id, twice.observations[0].id);
}

#[test]
fn order_is_immaterial_for_disjoint_ids() {
    let b1 = || BatchIngestRequest { trace: Some(trace(1)), observations: vec![obs(10, 1)] };
    let b2 = || BatchIngestRequest { trace: Some(trace(2)), observations: vec![obs(20, 2)] };
    let mut s12 = Store::new();
    s12.apply_batch(&b1(), &"p".to_string(), ts(5));
    s12.apply_batch(&b2(), &"p".to_string(), ts(5));
    let mut s21 = Store::new();
    s21.apply_batch(&b2(), &"p".to_string(), ts(5));
    s21.apply_batch(&b1(), &"p".to_string(), ts(5));
    for id in [1u128, 2] {
        let a = s12.find_trace(uid(id)).unwrap();
        let b = s21.find_trace(uid(id)).unwrap();
        assert_eq!(a.id, b.id);
        assert_eq!(a.created_at, b.created_at);
    }
    assert_eq!(s12.observations.len(), 2);
    assert_eq!(s21.observations.len(), 2);
}

#[test]
fn the_last_payload_naming_an_id_wins() {
    let mut store = Store::new();
    let mut t1 = trace(1);
    t1.name = Some("first".to_string());
    t1.user_id = Some("u1".to_string());
    let mut t2 = trace(1);
    t2.name = Some("second".to_string());
    store.apply_batch(
        &BatchIngestRequest { trace: Some(t1), observations: vec![] },
        &"p".to_string(),
        ts(5),
    );
    store.apply_batch(
        &BatchIngestRequest { trace: Some(t2), observations: vec![] },
        &"p".to_string(),
        ts(6),
    );
    let row = store.find_trace(uid(1)).unwrap();
    assert_eq!(row.name.as_deref(), Some("second"));
    // every mutable column is replaced: the first write's user id is gone
    assert!(row.user_id.is_none());
    assert_eq!(row.created_at, ts(5));
    assert_eq!(row.updated_at, ts(6));
}
