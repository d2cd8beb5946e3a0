//! Verified core of an observability ingestion and query service for
//! LLM-application traces.
//!
//! The crate normalizes OTLP trace exports and batch-ingest envelopes into a
//! common trace/observation model, applies them to a store with idempotent
//! upsert semantics, and answers paginated list, detail and daily-rollup
//! queries over that store. The HTTP shell around it lives outside the
//! library and hands it plain values.

pub mod api;
pub mod auth;
pub mod codec;
pub mod content;
pub mod ingest;
pub mod json;
pub mod mapper;
pub mod otlp;
pub mod query;
pub mod queue;
pub mod rollup;
pub mod store;
pub mod text;
pub mod upsert_laws;
