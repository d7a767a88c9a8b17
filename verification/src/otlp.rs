//! OTLP export requests, and the events made of them.
//!
//! A request goes down from resources over scopes and metrics to data points.
//! Each data point becomes one event; what the levels above say is shared by the
//! events below them.
pub mod attributes;
pub mod convert;
pub mod convert_laws;
pub mod decode;
pub mod model;
pub mod normalize;
pub mod normalize_again;
pub mod normalize_laws;

pub use crate::otlp::attributes::{attribute_value, attributes, hex};
pub use crate::otlp::convert::{convert, count_points, points_lost, UNKNOWN_SERVICE};
pub use crate::otlp::decode::{decode_json, decode_json_bytes};
