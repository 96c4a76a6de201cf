//! Decoding of the PostgreSQL binary representations of individual data
//! types, and their conversions into Parquet values.

pub mod array;
pub mod interval;
pub mod jsonb;
pub mod money;
pub mod numeric;
pub mod pgvector;
pub mod utils;
