//! Writing to the store and scheduling the report files.

pub mod arangodb;
pub mod arangodb_handler;
pub mod file_scheduler;
pub mod memory;
pub mod query;
pub mod store;
pub mod upsert;

pub use arangodb_handler::ArangodbHandler;
