//! A versioned schema-migration core for an embedded relational store.
//!
//! The crate models the store as a plain value (tables, rows, foreign keys,
//! and the ledger of applied migration versions), states the semantics of
//! every migration statement as a specification-level interpreter, and
//! proves that the executable runner follows that interpreter exactly:
//! migrations are applied at most once, in ascending version order, with
//! fail-fast abort and per-migration rollback.

pub mod values;
pub mod schema;
pub mod store;
pub mod statement;
pub mod catalog;
pub mod runner;
pub mod laws;
pub mod migrations;
