//! Column appenders: the per-column state machines that turn decoded
//! PostgreSQL values into Dremel-encoded `(value, DL, RL)` records.

pub mod byte_array;
pub mod fixed_byte_array;
pub mod generic;
pub mod interface;
pub mod real_memory_size;
pub mod records;
