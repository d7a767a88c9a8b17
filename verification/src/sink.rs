//! Where events end up: a table in ClickHouse.
pub mod body;
pub mod clickhouse;
pub mod ddl;
pub mod ddl_laws;
pub mod health;
pub mod health_laws;
pub mod insert;
pub mod insert_laws;
pub mod laws;
pub mod schema;
pub mod types;

pub use crate::sink::clickhouse::{ClickhouseSink, InsertFormat};
