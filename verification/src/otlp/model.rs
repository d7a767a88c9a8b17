//! Export requests: what OTLP reports of a resource, its scopes, their metrics
//! and the data points of these.
use crate::double::Double;
use vstd::prelude::*;

verus! {

/// One export: everything that a client sends at a time.
#[derive(Debug, PartialEq)]
pub struct ExportRequest {
    pub resource_metrics: Vec<ResourceMetrics>,
}

/// What one resource reports.
#[derive(Debug, PartialEq)]
pub struct ResourceMetrics {
    pub resource: Option<Resource>,
    pub scope_metrics: Vec<ScopeMetrics>,
}

/// What is observed: a service, a host, a container.
#[derive(Debug, PartialEq)]
pub struct Resource {
    pub attributes: Vec<KeyValue>,
}

/// What one scope of a resource reports.
#[derive(Debug, PartialEq)]
pub struct ScopeMetrics {
    pub scope: Option<InstrumentationScope>,
    pub metrics: Vec<Metric>,
}

/// The library that took the measurements.
#[derive(Debug, PartialEq)]
pub struct InstrumentationScope {
    pub name: String,
    pub version: String,
}

/// A metric; without data it is only described.
#[derive(Debug, PartialEq)]
pub struct Metric {
    pub name: String,
    pub description: String,
    pub unit: String,
    pub data: Option<Data>,
}

/// The data points of a metric, by its kind.
#[derive(Debug, PartialEq)]
pub enum Data {
    Gauge(Gauge),
    Sum(Sum),
    Histogram(Histogram),
    ExponentialHistogram(ExponentialHistogram),
    Summary(Summary),
}

/// Numbers that stand for themselves.
#[derive(Debug, PartialEq)]
pub struct Gauge {
    pub data_points: Vec<NumberDataPoint>,
}

/// Numbers that add up.
#[derive(Debug, PartialEq)]
pub struct Sum {
    pub data_points: Vec<NumberDataPoint>,
    pub aggregation_temporality: i32,
    pub is_monotonic: bool,
}

/// Counts in buckets with bounds.
#[derive(Debug, PartialEq)]
pub struct Histogram {
    pub data_points: Vec<HistogramDataPoint>,
    pub aggregation_temporality: i32,
}

/// Counts in buckets whose widths grow by a factor.
#[derive(Debug, PartialEq)]
pub struct ExponentialHistogram {
    pub data_points: Vec<ExponentialHistogramDataPoint>,
    pub aggregation_temporality: i32,
}

/// Quantiles that the client worked out.
#[derive(Debug, PartialEq)]
pub struct Summary {
    pub data_points: Vec<SummaryDataPoint>,
}

/// A number, with a fraction or without.
#[derive(Clone, Copy, Debug, PartialEq)]
pub enum NumberValue {
    AsDouble(Double),
    AsInt(i64),
}

/// A point of a gauge or a sum.
#[derive(Debug, PartialEq)]
pub struct NumberDataPoint {
    pub attributes: Vec<KeyValue>,
    pub start_time_unix_nano: u64,
    pub time_unix_nano: u64,
    pub exemplars: Vec<SampledValue>,
    pub flags: u32,
    pub value: Option<NumberValue>,
}

/// A point of a histogram.
#[derive(Debug, PartialEq)]
pub struct HistogramDataPoint {
    pub attributes: Vec<KeyValue>,
    pub start_time_unix_nano: u64,
    pub time_unix_nano: u64,
    pub count: u64,
    pub sum: Option<Double>,
    pub bucket_counts: Vec<u64>,
    pub explicit_bounds: Vec<Double>,
    pub exemplars: Vec<SampledValue>,
    pub flags: u32,
    pub min: Option<Double>,
    pub max: Option<Double>,
}

/// A point of an exponential histogram.
#[derive(Debug, PartialEq)]
pub struct ExponentialHistogramDataPoint {
    pub attributes: Vec<KeyValue>,
    pub start_time_unix_nano: u64,
    pub time_unix_nano: u64,
    pub count: u64,
    pub sum: Option<Double>,
    pub scale: i32,
    pub zero_count: u64,
    pub positive: Option<Buckets>,
    pub negative: Option<Buckets>,
    pub flags: u32,
    pub exemplars: Vec<SampledValue>,
    pub min: Option<Double>,
    pub max: Option<Double>,
    pub zero_threshold: Double,
}

/// The buckets on one side of zero.
#[derive(Debug, PartialEq)]
pub struct Buckets {
    pub offset: i32,
    pub bucket_counts: Vec<u64>,
}

/// A point of a summary.
#[derive(Debug, PartialEq)]
pub struct SummaryDataPoint {
    pub attributes: Vec<KeyValue>,
    pub start_time_unix_nano: u64,
    pub time_unix_nano: u64,
    pub count: u64,
    pub sum: Double,
    pub quantile_values: Vec<ValueAtQuantile>,
    pub flags: u32,
}

/// A quantile of a summary.
#[derive(Clone, Copy, Debug, PartialEq)]
pub struct ValueAtQuantile {
    pub quantile: Double,
    pub value: Double,
}

/// A single observation behind a data point; OTLP calls it an exemplar.
#[derive(Debug, PartialEq)]
pub struct SampledValue {
    pub filtered_attributes: Vec<KeyValue>,
    pub time_unix_nano: u64,
    pub span_id: Vec<u8>,
    pub trace_id: Vec<u8>,
    pub value: Option<NumberValue>,
}

/// An attribute.
#[derive(Debug, PartialEq)]
pub struct KeyValue {
    pub key: String,
    pub value: Option<AnyValue>,
}

/// The value of an attribute, where it has one.
#[derive(Debug, PartialEq)]
pub struct AnyValue {
    pub value: Option<Any>,
}

/// A value of an attribute, by its type.
#[derive(Debug, PartialEq)]
pub enum Any {
    StringValue(String),
    BoolValue(bool),
    IntValue(i64),
    DoubleValue(Double),
    ArrayValue(Vec<AnyValue>),
    KvlistValue(Vec<KeyValue>),
    BytesValue(Vec<u8>),
    /// A reference into a table of texts, which only profiles have.
    StringValueStrindex(i32),
}

} // verus!
