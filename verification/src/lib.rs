//! Pivot-query engine for ClickHouse: request validation, SQL planning and
//! generation, and shaping of pre-aggregated rows into a pivot response.

pub mod text;
pub mod json;
pub mod types;
pub mod error;
pub mod semantic;
pub mod query;
pub mod pivot;
pub mod config;
pub mod cache;
pub mod clickhouse;
pub mod session;
