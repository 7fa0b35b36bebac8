//! TurboLog — local-first log triage: the verified core.
//!
//! Holds the decisions and formats of the pipe CLI and of the experimental
//! server: template ids and the template cache, calibration triggers, the
//! write-ahead-log record format, chunk and file naming, metrics text, and
//! the small text formats the commands print.

pub mod ingest;

pub use ingest::fnv1a64;
pub mod text;
pub mod wal;
pub mod pipeline;
pub mod cli;
pub mod embedded;
pub mod history;
pub mod diagnose;
pub mod metrics;
pub mod http;
pub mod watch;
pub mod scan;
pub mod llm;
pub mod chunks;
pub mod engine;
pub mod tui;
