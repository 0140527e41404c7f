//! What a backend can evaluate.

pub mod supported_functions;
