//! Takes in OTLP metrics, lays each data point out as one flat row, and gets the
//! rows ready for ClickHouse.
//!
//! * [`otlp`] decodes export requests and takes them apart into events;
//! * [`event`] is the flat row and its forms;
//! * [`sink`] has the statements, requests and checks for the table;
//! * [`source`] has the batches that events travel in.
//!
//! Nothing here does I/O.
pub mod count;
pub mod document;
pub mod double;
pub mod error;
pub mod event;
pub mod json;
pub mod otlp;
pub mod scan;
pub mod scan_laws;
pub mod sink;
pub mod source;
pub mod text;

pub use crate::error::PipeError;
pub use crate::event::{Exemplar, MetricEvent, MetricType, Quantile, Temporality};
pub use crate::source::Batch;
