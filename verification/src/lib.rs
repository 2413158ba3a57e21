//! Incremental (streaming) SQL execution core: a push-driven operator
//! protocol over batches of columnar records, an insertion/retraction row
//! convention, a scalar/key model for grouping, nested-scope name
//! resolution, and a counting trigger that decides when a partial aggregate
//! becomes visible downstream.

pub mod batch;
pub mod column;
pub mod error;
pub mod node;
pub mod scalar;
pub mod schema;
pub mod trigger;
