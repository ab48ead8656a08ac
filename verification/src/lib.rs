//! Metric discovery, sample-row parsing and batching for the export of
//! performance-monitoring archives to a time-series database.
//!
//! The library holds the rules of the export and leaves the files, the processes and
//! the network to its caller:
//!
//! - `validator` finds out which metrics of an archive's inventory can be sampled,
//!   by asking for a whole batch first and for single names only where a batch fails;
//!   `category` then drops the metrics of the categories that are switched off.
//! - `metric_list` reads and writes lists of metric names, among them the cache of
//!   validated metrics.
//! - `sampler` says how the sampling utility is run.
//! - `stream` takes the sampling utility's output line by line; `sample` turns a row
//!   into a point, with `number`, `timestamp` and `value_filter` deciding which cells
//!   become fields.
//! - `metrics_cache` remembers which metrics were ever exported and says what to
//!   append to their ledger.
//! - `batcher` gathers the points into the groups in which they are written.
//! - `config` holds the settings, and `text` the character-level helpers.

pub mod batcher;
pub mod category;
pub mod config;
pub mod metric_list;
pub mod metrics_cache;
pub mod number;
pub mod sample;
pub mod sampler;
pub mod stream;
pub mod text;
pub mod timestamp;
pub mod validator;
pub mod value_filter;
