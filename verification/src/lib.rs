//! A dialect-agnostic relational database access layer: a fluent
//! query-construction API that compiles to dialect-correct SQL for
//! Postgres-like, MySQL-like and SQLite-like backends, together with a
//! schema-synchronization engine that reconciles declared table shapes
//! against live catalog metadata.
//!
//! Everything here is pure: builders accumulate clause state and render it
//! to SQL text plus a positional argument list; the synchronizer turns a
//! table contract and introspected catalog rows into an ordered plan of DDL
//! statements. Executing the rendered statements against a backend is left
//! to the embedding application.

pub mod builder;
pub mod db;
pub mod decode;
pub mod dialect;
pub mod error;
pub mod filter;
pub mod migrate;
pub mod model;
pub mod pagination;
pub mod sync;
pub mod text;
pub mod txn;
pub mod value;
pub mod write;
