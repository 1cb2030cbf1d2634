//! The PostgreSQL side of the library: turning stream queries into SQL criteria, keys of
//! snapshots, and the configuration of event listeners.
pub mod append;
pub mod criteria;
pub mod event_store;
pub mod id_indexer;
pub mod insert_builder;
pub mod listener;
pub mod migrator;
pub mod pg_query;
pub mod query;
pub mod query_builder;
pub mod snapshotter;
pub mod sql_criteria_builder;
