use xtrace::api::ApiError;
use xtrace::codec::{Timestamp, UuidVal};
use xtrace::ingest::{BatchIngestRequest, ObservationIngest, TraceIngest};
use xtrace::query::{
    get_trace, get_traces, parse_order_by, parse_trace_fields, OrderColumn, TraceListQuery,
    MASKED_METRIC,
};
use xtrace::store::Store;

fn uid(n: u128) -> UuidVal {
    UuidVal { value: n }
}

fn ts(secs: i64) -> Timestamp {
    Timestamp { secs, nanos: 0 }
}

fn trace(id: u128) -> TraceIngest {
    TraceIngest {
        id: uid(id),
        timestamp: None,
        name: None,
        input: None,
        output: None,
        session_id: None,
        release: None,
        version: None,
        user_id: None,
        metadata: None,
        tags: Vec::new(),
        public: None,
        environment: None,
        external_id: None,
        bookmarked: None,
        latency: None,
        total_cost: None,
        project_id: None,
    }
}

fn obs(id: u128, trace_id: u128) -> ObservationIngest {
    ObservationIngest {
        id: uid(id),
        trace_id: uid(trace_id),
        obs_type: Some("SPAN".to_string()),
        name: None,
        start_time: None,
        end_time: None,
        completion_start_time: None,
        model: None,
        model_parameters: None,
        input: None,
        output: None,
        usage: None,
        level: None,
        status_message: None,
        parent_observation_id: None,
        prompt_id: None,
        prompt_name: None,
        prompt_version: Some("3".to_string()),
        model_id: None,
        input_price: None,
        output_price: None,
        total_price: None,
        calculated_input_cost: None,
        calculated_output_cost: None,
        calculated_total_cost: None,
        latency: None,
        time_to_first_token: None,
        completion_tokens: None,
        prompt_tokens: Some(10),
        total_tokens: None,
        unit: None,
        metadata: None,
        environment: None,
        project_id: None,
    }
}

fn empty_query() -> TraceListQuery {
    TraceListQuery {
        page: None,
        limit: None,
        user_id: None,
        name: None,
        session_id: None,
        from_timestamp: None,
        to_timestamp: None,
        order_by: None,
        tags: Vec::new(),
        version: None,
        release: None,
        environment: Vec::new(),
        fields: None,
    }
}

#[test]
fn field_masks_follow_the_fields_parameter() {
    let all = parse_trace_fields(None);
    assert!(all.io && all.scores && all.observations && all.metrics);
    let some = parse_trace_fields(Some("observations, metrics"));
    assert!(!some.io && !some.scores && some.observations && some.metrics);
    let none = parse_trace_fields(Some(""));
    assert!(!none.io && !none.scores && !none.observations && !none.metrics);
}

#[test]
fn order_by_is_whitelisted_with_defaults() {
    assert_eq!(parse_order_by(None), Ok((OrderColumn::Timestamp, true)));
    assert_eq!(parse_order_by(Some("name.asc")), Ok((OrderColumn::Name, false)));
    assert_eq!(parse_order_by(Some("latency")), Ok((OrderColumn::Latency, true)));
    // a bare column name carries the implicit direction `desc`
    assert_eq!(parse_order_by(Some("userId")), Ok((OrderColumn::UserId, true)));
    assert_eq!(parse_order_by(Some("userId.asc")), Ok((OrderColumn::UserId, false)));
    // an invalid direction falls back to the column's default
    assert_eq!(parse_order_by(Some("timestamp.upward")), Ok((OrderColumn::Timestamp, true)));
    assert_eq!(parse_order_by(Some("userId.upward")), Ok((OrderColumn::UserId, false)));
    assert_eq!(parse_order_by(Some("name.desc")), Ok((OrderColumn::Name, true)));
    match parse_order_by(Some("drop table")) {
        Err(ApiError::BadRequest(m)) => assert_eq!(m, "invalid order_by"),
        _ => panic!("unknown columns must be refused"),
    }
}

fn store_with_thirty_traces() -> Store {
    let mut store = Store::new();
    for i in 0..30u128 {
        let mut t = trace(i + 1);
        t.timestamp = Some(ts(1000 + i as i64));
        t.latency = Some(2_500_000);
        t.total_cost = Some(1_000_000);
        let mut observations = Vec::new();
        if i == 0 {
            observations.push(obs(100, 1));
        }
        store.apply_batch(
            &BatchIngestRequest { trace: Some(t), observations },
            &"default".to_string(),
            ts(5000),
        );
    }
    store
}

#[test]
fn list_masks_fields_and_paginates() {
    let store = store_with_thirty_traces();
    let mut q = empty_query();
    q.fields = Some("observations".to_string());
    q.limit = Some(5);
    q.page = Some(1);
    let page = get_traces(&store, &q, &"default".to_string()).unwrap();
    assert_eq!(page.data.len(), 5);
    assert_eq!(page.meta.total_items, 30);
    assert_eq!(page.meta.total_pages, 6);
    assert_eq!(page.meta.page, 1);
    assert_eq!(page.meta.limit, 5);
    for item in &page.data {
        assert!(item.input.is_none());
        assert!(item.output.is_none());
        assert!(item.metadata.is_none());
        assert_eq!(item.latency, Some(MASKED_METRIC));
        assert_eq!(item.total_cost, Some(MASKED_METRIC));
        assert!(item.scores.is_empty());
    }
    // default order is timestamp descending: the newest trace leads
    assert_eq!(page.data[0].id, uid(30));
    let obs_ids: Vec<&String> = page.data.iter().flat_map(|i| i.observations.iter()).collect();
    assert_eq!(obs_ids.len(), 0);
    // page 6 holds the oldest, and it carries the observation id list
    q.page = Some(6);
    let last = get_traces(&store, &q, &"default".to_string()).unwrap();
    assert_eq!(last.data.len(), 5);
    assert_eq!(last.data[4].id, uid(1));
    assert_eq!(last.data[4].observations.len(), 1);
    assert_eq!(
        last.data[4].observations[0],
        "00000000-0000-0000-0000-000000000064"
    );
    assert_eq!(
        last.data[4].html_path,
        "/project/default/traces/00000000-0000-0000-0000-000000000001"
    );
}

#[test]
fn pages_concatenate_without_duplicates() {
    let store = store_with_thirty_traces();
    let mut seen: Vec<u128> = Vec::new();
    for p in 1..=6 {
        let mut q = empty_query();
        q.limit = Some(5);
        q.page = Some(p);
        let page = get_traces(&store, &q, &"default".to_string()).unwrap();
        assert!(page.data.len() <= 5);
        for item in &page.data {
            assert!(!seen.contains(&item.id.value));
            seen.push(item.id.value);
        }
    }
    assert_eq!(seen.len(), 30);
}

#[test]
fn filters_compose() {
    let mut store = Store::new();
    let mut a = trace(1);
    a.user_id = Some("u1".to_string());
    a.tags = vec!["x".to_string(), "y".to_string()];
    a.environment = Some("prod".to_string());
    a.timestamp = Some(ts(100));
    let mut b = trace(2);
    b.user_id = Some("u2".to_string());
    b.tags = vec!["x".to_string()];
    b.timestamp = Some(ts(200));
    store.apply_batch(
        &BatchIngestRequest { trace: Some(a), observations: vec![] },
        &"default".to_string(),
        ts(1),
    );
    store.apply_batch(
        &BatchIngestRequest { trace: Some(b), observations: vec![] },
        &"default".to_string(),
        ts(1),
    );
    let mut q = empty_query();
    q.tags = vec!["x".to_string(), "y".to_string()];
    let page = get_traces(&store, &q, &"default".to_string()).unwrap();
    assert_eq!(page.data.len(), 1);
    assert_eq!(page.data[0].id, uid(1));
    let mut q2 = empty_query();
    q2.environment = vec!["prod".to_string(), "staging".to_string()];
    let page2 = get_traces(&store, &q2, &"default".to_string()).unwrap();
    assert_eq!(page2.data.len(), 1);
    let mut q3 = empty_query();
    q3.from_timestamp = Some(ts(150));
    let page3 = get_traces(&store, &q3, &"default".to_string()).unwrap();
    assert_eq!(page3.data.len(), 1);
    assert_eq!(page3.data[0].id, uid(2));
}

#[test]
fn detail_returns_the_trace_with_ordered_observations() {
    let mut store = Store::new();
    let mut t = trace(1);
    t.name = Some("t1".to_string());
    t.tags = vec!["x".to_string()];
    let mut o1 = obs(11, 1);
    o1.start_time = Some(ts(300));
    let mut o2 = obs(12, 1);
    o2.start_time = Some(ts(200));
    let o3 = obs(13, 1);
    store.apply_batch(
        &BatchIngestRequest { trace: Some(t), observations: vec![o1, o2, o3] },
        &"default".to_string(),
        ts(1000),
    );
    let detail = get_trace(&store, uid(1)).unwrap();
    assert_eq!(detail.name.as_deref(), Some("t1"));
    assert_eq!(detail.observations.len(), 3);
    // start times ascending, the unset one falls back to created_at and sorts last
    assert_eq!(detail.observations[0].id, uid(12));
    assert_eq!(detail.observations[1].id, uid(11));
    assert_eq!(detail.observations[2].id, uid(13));
    let v = &detail.observations[0];
    assert_eq!(v.obs_type, "SPAN");
    assert_eq!(v.level, "DEFAULT");
    assert_eq!(v.prompt_version, Some(3));
    assert_eq!(v.prompt_tokens, 10);
    assert_eq!(v.usage.input, 10);
    assert_eq!(v.usage.output, 0);
    assert!(detail.scores.is_empty());
}

#[test]
fn detail_of_an_unknown_trace_is_not_found() {
    let store = Store::new();
    match get_trace(&store, uid(42)) {
        Err(e) => {
            let (status, message) = e.to_response_parts();
            assert_eq!(status, 404);
            assert_eq!(message, "Not Found");
        },
        Ok(_) => panic!("an unknown trace must be absent"),
    }
}
