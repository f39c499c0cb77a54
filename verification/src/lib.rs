//! A small key-value server speaking the Redis wire protocol: the verified
//! parts are the command parsers, the string and hash stores, the database
//! that dispatches commands to them, and the framing of incoming bytes into
//! command packages.

pub mod text;
pub mod protocol;
pub mod parser;
pub mod config;
pub mod storage;
pub mod serve;
pub mod client;
