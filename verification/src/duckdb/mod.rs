//! Writing to DuckDB.

pub mod write_settings;
