//! Time-stamped sensor tables: ingestion, merging, derived columns and
//! batched projection, with every algorithm proved against its contract.
//!
//! A table is a list of headers and rows of optional numeric cells, keyed by
//! a timestamp text. Sources are read from bytes (`ingest`, `metadata`),
//! several tables fold into one (`merge`), new columns are computed from
//! existing ones (`config`, `plan`, `cell`, `derive`), and column subsets are
//! handed out whole or in batches (`project`). `session` holds the one table
//! that is live.
//!
//! Numbers are carried as IEEE 754 binary64 bit patterns. The library never
//! does floating-point work itself: callers pass in a reader, from a text to
//! the pattern it stands for, and an arithmetic unit, from an operator and two
//! patterns to the pattern of the result.

pub mod cell;
pub mod config;
pub mod derive;
pub mod headers;
pub mod ingest;
pub mod laws;
pub mod merge;
pub mod merge_laws;
pub mod metadata;
pub mod number;
pub mod plan;
pub mod project;
pub mod session;
pub mod source;
pub mod table;
pub mod text;

pub use config::{Aggregate, DeriveConfig, DeriveError, MultiConfig, Operator, SingleConfig};
pub use derive::derive_column;
pub use ingest::read_csv;
pub use merge::{merge_tables, MergeError};
pub use metadata::load_metadata;
pub use project::{export_batches, get_data, next_batch, Emission, BATCH_ROWS};
pub use session::{Session, SessionError};
pub use source::LoadError;
pub use table::{sample_data, CsvMetadata, CsvRecord, ProcessedData, SensorMetadata};
