//! SQL for SQLite, and rows from it.

pub mod between;
pub mod cast;
pub mod rows;
