//! Turns declared data models (tables, columns, constraints) into versioned
//! SQL migration scripts for several SQL dialects.
//!
//! The pipeline: tables register with the [`scheduler::Scheduler`]; the
//! dependency graph in [`graph`] resolves a safe creation order (or reports a
//! cycle); [`diff`] compares the previously persisted schema against the
//! current one and emits ordered DDL with optional inverses; literals are
//! rendered and validated by [`literal`] under the rules of [`dialect`].

pub mod constraint;
pub mod dialect;
pub mod diff;
pub mod eq;
pub mod error;
pub mod graph;
pub mod literal;
pub mod schema;
pub mod scheduler;
pub mod table;
pub mod text;
pub mod types;
