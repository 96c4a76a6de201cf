//! Export of PostgreSQL query results into Parquet column chunks.
//!
//! The crate plans a Parquet schema from a PostgreSQL type tree, builds a
//! tree of column appenders that turn decoded rows into Dremel-encoded
//! `(value, definition level, repetition level)` records, and drives row
//! groups to flush thresholds.  Network and file handling live outside the
//! crate; rows enter as the raw bytes of the PostgreSQL binary protocol and
//! column chunks leave as plain buffers.

pub mod appenders;
pub mod datatypes;
pub mod level_index;
pub mod myfrom;
pub mod parquet_writer;
pub mod pg_custom_types;
pub mod postgres_cloner;
pub mod postgresutils;
