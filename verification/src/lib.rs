//! Telemetry for long-running computations: metrics, parameters, log lines and
//! artifacts of a run, kept in one directory for each run.
//!
//! The library decides and computes; it touches no file and waits for nothing.
//! A metric file or a document is handed to it as bytes or text and handed back
//! the same way, and the worker of a run is driven one event at a time.
//!
//! - [`models`]: configuration, rows, metadata.
//! - [`engine`]: the worker of a run: what each command, tick and close leads to.
//! - [`storage`]: the metric store on bytes: append, read, read after a cursor,
//!   latest numbers.
//! - [`table`], [`ingest`], [`append`], [`reading`]: the columnar table behind
//!   the store: how rows become columns, how schemas are united, how rows are
//!   read back.
//! - [`shape`]: the shape of the tables that the store writes, to which rows
//!   can always be appended.
//! - [`batches`]: why it does not matter how logged rows are cut into batches.
//! - [`codec`]: tables as Arrow record batches and Parquet files.
//! - [`document`]: key/value documents in YAML and their merging.
//! - [`listing`]: experiments, runs and artifacts found in directories.
//! - [`numbers`], [`text`], [`order`], [`clock`]: numbers and their texts,
//!   equality and order of texts, the clock.
//! - [`error`]: the error type.
//! - [`laws`]: what holds of all of it together.

pub mod append;
pub mod batches;
pub mod clock;
pub mod codec;
pub mod document;
pub mod engine;
pub mod error;
pub mod ingest;
pub mod laws;
pub mod listing;
pub mod models;
pub mod numbers;
pub mod order;
pub mod reading;
pub mod shape;
pub mod storage;
pub mod table;
pub mod text;
