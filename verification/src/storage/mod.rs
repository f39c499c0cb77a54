//! The values the server holds.

pub mod db;
pub mod fields;
pub mod hash;
pub mod keyed;
pub mod string;
pub mod types;
