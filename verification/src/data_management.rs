//! The keyspace and the single-writer actor that owns it: entries with
//! optional millisecond expiry, the store they live in, and the
//! actor step that serializes all mutations.
pub mod datastore;
pub mod hash_table_store;
pub mod message;
pub mod worker;
