//! Core library for a distributed load-generation and metrics-ingestion
//! tool: rate admission, weighted target selection, metric buffering,
//! wire and columnar batch encodings, and the ingestion-side store.
//!
//! Everything here is pure logic on plain values; the surrounding process
//! (sockets, files, the RPC transport, clocks) lives in the application
//! crate and hands values in and out.

pub mod columnar;
pub mod config;
pub mod ingest;
pub mod metrics;
pub mod pool;
pub mod rate_gate;
pub mod selector;
pub mod sink;
pub mod wire;
