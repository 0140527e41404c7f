pub mod adbc;
pub mod arith;
pub mod batch;
pub mod duckdb;
pub mod engine;
pub mod fold;
pub mod logical;
pub mod mongodb;
pub mod postgres;
pub mod sql;
pub mod sqlite;
pub mod text;
pub mod tree;
pub mod types;
pub mod util;
