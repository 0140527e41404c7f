//! Rows from PostgreSQL.

pub mod carrying;
pub mod cell;
pub mod decoder;
pub mod json;
pub mod numeric;
pub mod rows;
pub mod types;
pub mod wire;
