use std::io::Write;

use flate2::write::GzEncoder;
use flate2::Compression;

use xtrace::api::{project_record, resolve_page, total_pages, ApiError};
use xtrace::content::{content_kind, decode_body, is_gzip, ContentKind};
use xtrace::ingest::BatchIngestRequest;
use xtrace::json::JsonVal;
use xtrace::queue::{admission_error, window_budget_ms, window_has_room, EnqueueOutcome, IngestQueue};

fn empty_batch() -> BatchIngestRequest {
    BatchIngestRequest { trace: None, observations: Vec::new() }
}

#[test]
fn a_full_queue_refuses_admission() {
    let mut q = IngestQueue::new(1);
    assert_eq!(q.offer(empty_batch()), EnqueueOutcome::Accepted);
    assert_eq!(q.offer(empty_batch()), EnqueueOutcome::Full);
    assert_eq!(q.len(), 1);
    match admission_error(EnqueueOutcome::Full) {
        Some(e) => {
            let (status, message) = e.to_response_parts();
            assert_eq!(status, 429);
            assert_eq!(message, "Too Many Requests");
        },
        None => panic!("a full queue is an admission error"),
    }
}

#[test]
fn a_closed_queue_is_unavailable_but_keeps_its_items() {
    let mut q = IngestQueue::new(10);
    assert_eq!(q.offer(empty_batch()), EnqueueOutcome::Accepted);
    q.close();
    assert_eq!(q.offer(empty_batch()), EnqueueOutcome::Closed);
    assert_eq!(q.len(), 1);
    assert!(q.pop_front().is_some());
    assert!(q.pop_front().is_none());
    match admission_error(EnqueueOutcome::Closed) {
        Some(e) => assert_eq!(e.status_code(), 503),
        None => panic!("a closed queue is an admission error"),
    }
    assert!(admission_error(EnqueueOutcome::Accepted).is_none());
}

#[test]
fn the_window_budget_never_goes_negative() {
    assert_eq!(window_budget_ms(50, 0), 50);
    assert_eq!(window_budget_ms(50, 49), 1);
    assert_eq!(window_budget_ms(50, 50), 0);
    assert_eq!(window_budget_ms(50, 1000), 0);
    assert!(window_has_room(199, 200));
    assert!(!window_has_room(200, 200));
}

#[test]
fn gzip_detection_is_case_insensitive() {
    assert!(is_gzip(Some("gzip")));
    assert!(is_gzip(Some("GZIP")));
    assert!(is_gzip(Some("deflate, gzip")));
    assert!(!is_gzip(Some("deflate")));
    assert!(!is_gzip(None));
    assert!(!is_gzip(Some("gzi")));
}

#[test]
fn content_kinds_follow_the_media_type() {
    assert_eq!(content_kind(None), ContentKind::Json);
    assert_eq!(content_kind(Some("application/json")), ContentKind::Json);
    assert_eq!(
        content_kind(Some("Application/JSON; charset=utf-8")),
        ContentKind::Json
    );
    assert_eq!(
        content_kind(Some("application/x-protobuf")),
        ContentKind::Protobuf
    );
    assert_eq!(content_kind(Some("text/plain")), ContentKind::Unsupported);
}

#[test]
fn gzip_bodies_inflate_and_bad_ones_are_rejected() {
    let mut enc = GzEncoder::new(Vec::new(), Compression::default());
    enc.write_all(b"hello trace").unwrap();
    let compressed = enc.finish().unwrap();
    let out = decode_body(true, compressed).unwrap();
    assert_eq!(out, b"hello trace");
    let plain = decode_body(false, b"raw".to_vec()).unwrap();
    assert_eq!(plain, b"raw");
    match decode_body(true, b"not gzip at all".to_vec()) {
        Err(ApiError::BadRequest(m)) => assert_eq!(m, "gzip decode failed"),
        _ => panic!("invalid gzip is a bad request"),
    }
}

#[test]
fn pagination_resolution_clamps() {
    assert_eq!(resolve_page(None, None), (1, 50));
    assert_eq!(resolve_page(Some(0), Some(0)), (1, 1));
    assert_eq!(resolve_page(Some(-5), Some(9999)), (1, 200));
    assert_eq!(resolve_page(Some(3), Some(25)), (3, 25));
    assert_eq!(total_pages(0, 50), 0);
    assert_eq!(total_pages(30, 5), 6);
    assert_eq!(total_pages(31, 5), 7);
    assert_eq!(total_pages(1, 200), 1);
}

#[test]
fn the_projects_endpoint_describes_the_default_project() {
    let p = project_record(&"default".to_string(), &"2024-01-01T00:00:00Z".to_string());
    assert_eq!(p.id, "default");
    assert_eq!(p.name, "default");
    assert_eq!(p.created_at, "2024-01-01T00:00:00Z");
    match p.metadata {
        Some(JsonVal::Obj(entries)) => assert!(entries.is_empty()),
        _ => panic!("metadata is an empty object"),
    }
}
