//! A small single-file relational data store: a table model, its binary
//! encoding, and an engine that runs create, select and update statements.

pub mod bytes;
pub mod engine;
pub mod error;
pub mod names;
pub mod query;
pub mod single;
pub mod storage;
pub mod table;
pub mod text;
