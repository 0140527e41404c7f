//! Reading a MongoDB collection as a table.

pub mod bson;
pub mod collation;
pub mod expression;
pub mod field;
pub mod filter;
pub mod float;
pub mod intset;
pub mod like;
pub mod likeness;
pub mod matching;
pub mod meaning;
pub mod projection;
pub mod quietness;
pub mod reach;
pub mod selection;
pub mod soundness;
pub mod table;
