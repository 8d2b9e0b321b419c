//! Verified core of a production-line stock ingestion engine.
//!
//! Scanner equipment drops semicolon-delimited declaration files into watched
//! folders, one folder per production line.  The library holds the logic of
//! that pipeline: decoding file bytes with an encoding fallback, parsing the
//! delimited records, transforming and mapping fields, building the
//! parameter lists for the per-row database inserts, classifying database
//! errors as transient or permanent, and deciding how each file is disposed
//! of (archived, rejected, restored or deleted).  Filesystem and network
//! side effects stay outside; callers feed plain values in and perform the
//! actions the library decides on.

pub mod numfmt;
pub mod text;
pub mod timedate;
pub mod transforms;
pub mod decode;
pub mod records;
pub mod mapping;
pub mod defaults;
pub mod emitter;
pub mod processor;
pub mod watch;
pub mod dashboard;
pub mod schedule;
pub mod logfmt;
pub mod types;
pub mod exports;
