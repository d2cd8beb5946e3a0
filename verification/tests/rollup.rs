use xtrace::codec::{Timestamp, UuidVal};
use xtrace::ingest::{BatchIngestRequest, ObservationIngest, TraceIngest};
use xtrace::rollup::{date_string, day_of_exec, get_metrics_daily, MetricsDailyQuery};
use xtrace::store::Store;

fn uid(n: u128) -> UuidVal {
    UuidVal { value: n }
}

fn ts(secs: i64) -> Timestamp {
    Timestamp { secs, nanos: 0 }
}

fn trace(id: u128, secs: i64, cost: i64) -> TraceIngest {
    TraceIngest {
        id: uid(id),
        timestamp: Some(ts(secs)),
        name: None,
        input: None,
        output: None,
        session_id: None,
        release: None,
        version: None,
        user_id: None,
        metadata: None,
        tags: Vec::new(),
        public: None,
        environment: None,
        external_id: None,
        bookmarked: None,
        latency: None,
        total_cost: Some(cost),
        project_id: None,
    }
}

fn generation(id: u128, trace_id: u128, model: &str, cost: i64) -> ObservationIngest {
    ObservationIngest {
        id: uid(id),
        trace_id: uid(trace_id),
        obs_type: Some("GENERATION".to_string()),
        name: None,
        start_time: None,
        end_time: None,
        completion_start_time: None,
        model: Some(model.to_string()),
        model_parameters: None,
        input: None,
        output: None,
        usage: None,
        level: None,
        status_message: None,
        parent_observation_id: None,
        prompt_id: None,
        prompt_name: None,
        prompt_version: None,
        model_id: None,
        input_price: None,
        output_price: None,
        total_price: None,
        calculated_input_cost: None,
        calculated_output_cost: None,
        calculated_total_cost: Some(cost),
        latency: None,
        time_to_first_token: None,
        completion_tokens: Some(20),
        prompt_tokens: Some(10),
        total_tokens: Some(30),
        unit: None,
        metadata: None,
        environment: None,
        project_id: None,
    }
}

fn empty_query() -> MetricsDailyQuery {
    MetricsDailyQuery {
        page: None,
        limit: None,
        trace_name: None,
        user_id: None,
        tags: Vec::new(),
        from_timestamp: None,
        to_timestamp: None,
    }
}

#[test]
fn dates_render_gregorian() {
    assert_eq!(date_string(0), "1970-01-01");
    assert_eq!(date_string(19675), "2023-11-14");
    assert_eq!(date_string(-1), "1969-12-31");
    assert_eq!(day_of_exec(ts(1_700_000_000)), 19675);
    assert_eq!(day_of_exec(ts(-1)), -1);
}

#[test]
fn daily_rollup_aggregates_per_day_and_model() {
    let mut store = Store::new();
    let day_secs: i64 = 19675 * 86400;
    // three traces on one day with one generation each
    let fixtures = [
        (1u128, 1_000_000i64, 101u128, "m1", 500_000i64),
        (2, 2_000_000, 102, "m1", 1_000_000),
        (3, 3_000_000, 103, "m2", 1_500_000),
    ];
    for (tid, tcost, oid, model, ocost) in fixtures {
        store.apply_batch(
            &BatchIngestRequest {
                trace: Some(trace(tid, day_secs + tid as i64, tcost)),
                observations: vec![generation(oid, tid, model, ocost)],
            },
            &"default".to_string(),
            ts(day_secs),
        );
    }
    let mut q = empty_query();
    q.from_timestamp = Some(ts(day_secs));
    q.to_timestamp = Some(ts(day_secs + 86399));
    let page = get_metrics_daily(&store, &q, &"default".to_string(), ts(day_secs + 86400));
    assert_eq!(page.meta.total_items, 1);
    assert_eq!(page.meta.total_pages, 1);
    assert_eq!(page.data.len(), 1);
    let row = &page.data[0];
    assert_eq!(row.date, "2023-11-14");
    assert_eq!(row.count_traces, 3);
    assert_eq!(row.count_observations, 3);
    assert_eq!(row.total_cost, 6_000_000);
    assert_eq!(row.usage.len(), 2);
    // total costs are tied at 1.5; both orders are acceptable
    let mut models: Vec<(&str, i128, i64, i64, i128)> = row
        .usage
        .iter()
        .map(|u| {
            (
                u.model.as_str(),
                u.total_cost,
                u.count_traces,
                u.count_observations,
                u.total_usage,
            )
        })
        .collect();
    models.sort();
    assert_eq!(models[0], ("m1", 1_500_000, 2, 2, 60));
    assert_eq!(models[1], ("m2", 1_500_000, 1, 1, 30));
    assert!(row.usage[0].total_cost >= row.usage[1].total_cost);
}

#[test]
fn rollup_reports_days_newest_first_and_paginates() {
    let mut store = Store::new();
    for d in 0..3i64 {
        store.apply_batch(
            &BatchIngestRequest {
                trace: Some(trace(d as u128 + 1, d * 86400 + 10, 0)),
                observations: vec![],
            },
            &"default".to_string(),
            ts(0),
        );
    }
    let mut q = empty_query();
    q.from_timestamp = Some(ts(0));
    q.to_timestamp = Some(ts(4 * 86400));
    q.limit = Some(2);
    q.page = Some(1);
    let page = get_metrics_daily(&store, &q, &"default".to_string(), ts(4 * 86400));
    assert_eq!(page.meta.total_items, 3);
    assert_eq!(page.meta.total_pages, 2);
    assert_eq!(page.data.len(), 2);
    assert_eq!(page.data[0].day, 2);
    assert_eq!(page.data[1].day, 1);
    q.page = Some(2);
    let page2 = get_metrics_daily(&store, &q, &"default".to_string(), ts(4 * 86400));
    assert_eq!(page2.data.len(), 1);
    assert_eq!(page2.data[0].day, 0);
    assert_eq!(page2.data[0].date, "1970-01-01");
}

#[test]
fn unknown_models_group_under_their_own_name() {
    let mut store = Store::new();
    let mut g = generation(5, 1, "x", 100);
    g.model = None;
    store.apply_batch(
        &BatchIngestRequest { trace: Some(trace(1, 100, 0)), observations: vec![g] },
        &"default".to_string(),
        ts(0),
    );
    let mut q = empty_query();
    q.from_timestamp = Some(ts(0));
    q.to_timestamp = Some(ts(1000));
    let page = get_metrics_daily(&store, &q, &"default".to_string(), ts(1000));
    assert_eq!(page.data.len(), 1);
    assert_eq!(page.data[0].usage.len(), 1);
    assert_eq!(page.data[0].usage[0].model, "unknown");
}
