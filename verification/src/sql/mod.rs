//! Rendering expressions and statements as SQL text.

pub mod dml;
pub mod enclosure;
pub mod expr;
pub mod federation;
pub mod reading;
pub mod table_dml;
