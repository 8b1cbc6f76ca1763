//! Utilities.

pub mod pool;
pub mod string_map;
pub mod token;
pub mod url;
