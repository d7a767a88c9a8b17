//! Metric events: one data point of an export request, laid out flat so that
//! its fields are the columns of a table.
//!
//! The five kinds of metric share one layout and are told apart by
//! `metric_type`; each fills the columns that it has something for and leaves
//! the others at their defaults.
use crate::double::{nearest, Double};
use crate::json::{put, value_at, Entries, Json, JsonMap, JsonView};
use std::sync::Arc;
use vstd::prelude::*;

pub mod calendar;
pub mod line;
pub mod line_laws;
pub mod order;
pub mod row;
pub mod row_laws;
pub mod size;
pub mod timestamp;

pub use crate::event::row::{CompactRow, WithZone, FIXED_COLUMNS};
pub use crate::event::timestamp::{format_timestamp, Timestamp};

verus! {

/// Attributes keep the types that they were reported with.
pub type Attributes = JsonMap;

/// The kind of metric that a data point belongs to.
#[derive(Clone, Copy, Debug, PartialEq, Eq, Structural)]
pub enum MetricType {
    Gauge,
    Sum,
    Histogram,
    ExponentialHistogram,
    Summary,
}

impl MetricType {
    /// The name of the kind.
    pub open spec fn name(self) -> Seq<char> {
        match self {
            MetricType::Gauge => "Gauge"@,
            MetricType::Sum => "Sum"@,
            MetricType::Histogram => "Histogram"@,
            MetricType::ExponentialHistogram => "ExponentialHistogram"@,
            MetricType::Summary => "Summary"@,
        }
    }

    /// The kinds whose points are one number.
    pub open spec fn scalar(self) -> bool {
        self is Gauge || self is Sum
    }

    /// The name of the kind.
    pub fn as_str(self) -> (r: &'static str)
        ensures
            r@ == self.name(),
    {
        match self {
            MetricType::Gauge => "Gauge",
            MetricType::Sum => "Sum",
            MetricType::Histogram => "Histogram",
            MetricType::ExponentialHistogram => "ExponentialHistogram",
            MetricType::Summary => "Summary",
        }
    }

    /// Whether points of this kind are read by [`MetricEvent::value`] and not by
    /// counts, sums or buckets.
    pub fn is_scalar(self) -> (r: bool)
        ensures
            r == self.scalar(),
    {
        matches!(self, MetricType::Gauge | MetricType::Sum)
    }
}

impl Default for MetricType {
    fn default() -> (r: MetricType)
        ensures
            r == MetricType::Gauge,
    {
        MetricType::Gauge
    }
}

/// Whether a value adds up from the start or covers the last interval only.
#[derive(Clone, Copy, Debug, PartialEq, Eq, Structural)]
pub enum Temporality {
    Unspecified,
    Delta,
    Cumulative,
}

impl Temporality {
    /// The name of the temporality.
    pub open spec fn name(self) -> Seq<char> {
        match self {
            Temporality::Unspecified => "Unspecified"@,
            Temporality::Delta => "Delta"@,
            Temporality::Cumulative => "Cumulative"@,
        }
    }

    /// What OTLP writes as 1 and 2; anything else is unspecified.
    pub open spec fn of_otlp(raw: i32) -> Temporality {
        if raw == 1 {
            Temporality::Delta
        } else if raw == 2 {
            Temporality::Cumulative
        } else {
            Temporality::Unspecified
        }
    }

    /// Reads the number that OTLP writes.
    pub fn from_otlp(raw: i32) -> (r: Temporality)
        ensures
            r == Temporality::of_otlp(raw),
    {
        match raw {
            1 => Temporality::Delta,
            2 => Temporality::Cumulative,
            _ => Temporality::Unspecified,
        }
    }

    /// The name of the temporality.
    pub fn as_str(self) -> (r: &'static str)
        ensures
            r@ == self.name(),
    {
        match self {
            Temporality::Unspecified => "Unspecified",
            Temporality::Delta => "Delta",
            Temporality::Cumulative => "Cumulative",
        }
    }
}

impl Default for Temporality {
    fn default() -> (r: Temporality)
        ensures
            r == Temporality::Unspecified,
    {
        Temporality::Unspecified
    }
}

/// A quantile of a summary.
#[derive(Clone, Copy, Debug, PartialEq)]
pub struct Quantile {
    /// From 0 to 1, such as 0.99.
    pub quantile: Double,
    pub value: Double,
}

impl Default for Quantile {
    fn default() -> (r: Quantile)
        ensures
            r == (Quantile { quantile: nearest(0), value: nearest(0) }),
    {
        Quantile { quantile: Double::zero(), value: Double::zero() }
    }
}

/// A single observation behind a metric, with the trace that it came from.
#[derive(Debug, PartialEq)]
pub struct Exemplar {
    /// UNIX nanoseconds.
    pub timestamp: u64,
    pub value: Double,
    /// Thirty-two lower-case hexadecimal digits, or nothing.
    pub trace_id: String,
    /// Sixteen lower-case hexadecimal digits, or nothing.
    pub span_id: String,
    /// What the observation has beyond the attributes of the data point.
    pub attributes: Attributes,
}

/// What an [`Exemplar`] says.
#[verifier::ext_equal]
pub struct ExemplarView {
    pub timestamp: u64,
    pub value: Double,
    pub trace_id: Seq<char>,
    pub span_id: Seq<char>,
    pub attributes: Entries,
}

impl View for Exemplar {
    type V = ExemplarView;

    open spec fn view(&self) -> ExemplarView {
        ExemplarView {
            timestamp: self.timestamp,
            value: self.value,
            trace_id: self.trace_id@,
            span_id: self.span_id@,
            attributes: self.attributes@,
        }
    }
}

impl Default for Exemplar {
    fn default() -> (r: Exemplar)
        ensures
            r@ == (ExemplarView {
                timestamp: 0,
                value: nearest(0),
                trace_id: Seq::empty(),
                span_id: Seq::empty(),
                attributes: Seq::empty(),
            }),
    {
        Exemplar {
            timestamp: 0,
            value: Double::zero(),
            trace_id: String::new(),
            span_id: String::new(),
            attributes: JsonMap::new(),
        }
    }
}

impl Clone for Exemplar {
    fn clone(&self) -> (r: Exemplar)
        ensures
            r@ == self@,
    {
        Exemplar {
            timestamp: self.timestamp,
            value: self.value,
            trace_id: self.trace_id.clone(),
            span_id: self.span_id.clone(),
            attributes: self.attributes.clone(),
        }
    }
}

/// What some exemplars say.
pub open spec fn exemplar_views(exemplars: Seq<Exemplar>) -> Seq<ExemplarView> {
    exemplars.map_values(|exemplar: Exemplar| exemplar@)
}

/// A data point. Which fields say something depends on its kind:
///
/// * `Gauge` and `Sum`: `value`; a `Sum` has `temporality` and `is_monotonic` too;
/// * `Histogram`: `count`, `sum`, `min`, `max`, `bucket_counts`, `explicit_bounds`;
/// * `ExponentialHistogram`: `count`, `sum`, `scale`, `zero_count` and both sides;
/// * `Summary`: `count`, `sum`, `quantiles`.
///
/// The others are zero or empty.
#[derive(Debug)]
pub struct MetricEvent {
    /// When the point was taken, in UNIX nanoseconds.
    pub timestamp: u64,
    /// Where the interval of the point starts, in UNIX nanoseconds; 0 where that
    /// was not reported.
    pub start_timestamp: u64,
    /// Shared by the points of one metric.
    pub metric_name: Arc<str>,
    pub metric_type: MetricType,
    pub metric_unit: Arc<str>,
    pub metric_description: Arc<str>,
    /// Shared by the points of one resource.
    pub service_name: Arc<str>,
    pub scope_name: Arc<str>,
    pub scope_version: Arc<str>,
    /// Shared by the points of one resource.
    pub resource_attributes: Arc<Attributes>,
    /// The labels of the time series that the point is on.
    pub attributes: Attributes,
    pub value: Double,
    pub temporality: Temporality,
    pub is_monotonic: bool,
    pub count: u64,
    pub sum: Double,
    pub min: Double,
    pub max: Double,
    /// One more than `explicit_bounds`: the last is for what lies above them.
    pub bucket_counts: Vec<u64>,
    pub explicit_bounds: Vec<Double>,
    pub scale: i32,
    pub zero_count: u64,
    pub zero_threshold: Double,
    pub positive_offset: i32,
    pub positive_bucket_counts: Vec<u64>,
    pub negative_offset: i32,
    pub negative_bucket_counts: Vec<u64>,
    pub quantiles: Vec<Quantile>,
    pub exemplars: Vec<Exemplar>,
    pub flags: u32,
    /// Further columns, of this point alone.
    pub fields: JsonMap,
    /// Further columns that all points of a source share. A field of the same
    /// name takes precedence.
    pub shared: Option<Arc<JsonMap>>,
}

/// What a [`MetricEvent`] says.
#[verifier::ext_equal]
pub struct EventView {
    pub timestamp: u64,
    pub start_timestamp: u64,
    pub metric_name: Seq<char>,
    pub metric_type: MetricType,
    pub metric_unit: Seq<char>,
    pub metric_description: Seq<char>,
    pub service_name: Seq<char>,
    pub scope_name: Seq<char>,
    pub scope_version: Seq<char>,
    pub resource_attributes: Entries,
    pub attributes: Entries,
    pub value: Double,
    pub temporality: Temporality,
    pub is_monotonic: bool,
    pub count: u64,
    pub sum: Double,
    pub min: Double,
    pub max: Double,
    pub bucket_counts: Seq<u64>,
    pub explicit_bounds: Seq<Double>,
    pub scale: i32,
    pub zero_count: u64,
    pub zero_threshold: Double,
    pub positive_offset: i32,
    pub positive_bucket_counts: Seq<u64>,
    pub negative_offset: i32,
    pub negative_bucket_counts: Seq<u64>,
    pub quantiles: Seq<Quantile>,
    pub exemplars: Seq<ExemplarView>,
    pub flags: u32,
    pub fields: Entries,
    pub shared: Option<Entries>,
}

/// What shared columns say.
pub open spec fn shared_view(shared: Option<Arc<JsonMap>>) -> Option<Entries> {
    match shared {
        Some(map) => Some(map@),
        None => None,
    }
}

impl View for MetricEvent {
    type V = EventView;

    open spec fn view(&self) -> EventView {
        EventView {
            timestamp: self.timestamp,
            start_timestamp: self.start_timestamp,
            metric_name: (*self.metric_name)@,
            metric_type: self.metric_type,
            metric_unit: (*self.metric_unit)@,
            metric_description: (*self.metric_description)@,
            service_name: (*self.service_name)@,
            scope_name: (*self.scope_name)@,
            scope_version: (*self.scope_version)@,
            resource_attributes: self.resource_attributes@,
            attributes: self.attributes@,
            value: self.value,
            temporality: self.temporality,
            is_monotonic: self.is_monotonic,
            count: self.count,
            sum: self.sum,
            min: self.min,
            max: self.max,
            bucket_counts: self.bucket_counts@,
            explicit_bounds: self.explicit_bounds@,
            scale: self.scale,
            zero_count: self.zero_count,
            zero_threshold: self.zero_threshold,
            positive_offset: self.positive_offset,
            positive_bucket_counts: self.positive_bucket_counts@,
            negative_offset: self.negative_offset,
            negative_bucket_counts: self.negative_bucket_counts@,
            quantiles: self.quantiles@,
            exemplars: exemplar_views(self.exemplars@),
            flags: self.flags,
            fields: self.fields@,
            shared: shared_view(self.shared),
        }
    }
}

impl Clone for MetricEvent {
    fn clone(&self) -> (r: MetricEvent)
        ensures
            r@ == self@,
    {
        let exemplars = clone_exemplars(&self.exemplars);
        let r = MetricEvent {
            timestamp: self.timestamp,
            start_timestamp: self.start_timestamp,
            metric_name: Arc::clone(&self.metric_name),
            metric_type: self.metric_type,
            metric_unit: Arc::clone(&self.metric_unit),
            metric_description: Arc::clone(&self.metric_description),
            service_name: Arc::clone(&self.service_name),
            scope_name: Arc::clone(&self.scope_name),
            scope_version: Arc::clone(&self.scope_version),
            resource_attributes: Arc::clone(&self.resource_attributes),
            attributes: self.attributes.clone(),
            value: self.value,
            temporality: self.temporality,
            is_monotonic: self.is_monotonic,
            count: self.count,
            sum: self.sum,
            min: self.min,
            max: self.max,
            bucket_counts: self.bucket_counts.clone(),
            explicit_bounds: self.explicit_bounds.clone(),
            scale: self.scale,
            zero_count: self.zero_count,
            zero_threshold: self.zero_threshold,
            positive_offset: self.positive_offset,
            positive_bucket_counts: self.positive_bucket_counts.clone(),
            negative_offset: self.negative_offset,
            negative_bucket_counts: self.negative_bucket_counts.clone(),
            quantiles: self.quantiles.clone(),
            exemplars,
            flags: self.flags,
            fields: self.fields.clone(),
            shared: match &self.shared {
                Some(shared) => Some(Arc::clone(shared)),
                None => None,
            },
        };
        assert(r@ =~= self@);
        r
    }
}

fn clone_exemplars(exemplars: &Vec<Exemplar>) -> (r: Vec<Exemplar>)
    ensures
        exemplar_views(r@) == exemplar_views(exemplars@),
{
    let mut r: Vec<Exemplar> = Vec::new();
    let mut i: usize = 0;
    while i < exemplars.len()
        invariant
            i <= exemplars@.len(),
            r@.len() == i,
            forall|j: int| 0 <= j < i ==> (#[trigger] r@[j])@ == exemplars@[j]@,
        decreases exemplars@.len() - i,
    {
        r.push(exemplars[i].clone());
        i += 1;
    }
    assert(exemplar_views(r@) =~= exemplar_views(exemplars@));
    r
}

/// What some events say.
pub open spec fn event_views(events: Seq<MetricEvent>) -> Seq<EventView> {
    events.map_values(|event: MetricEvent| event@)
}

/// An event with every field at its default.
pub open spec fn blank_event() -> EventView {
    EventView {
        timestamp: 0,
        start_timestamp: 0,
        metric_name: Seq::empty(),
        metric_type: MetricType::Gauge,
        metric_unit: Seq::empty(),
        metric_description: Seq::empty(),
        service_name: Seq::empty(),
        scope_name: Seq::empty(),
        scope_version: Seq::empty(),
        resource_attributes: Seq::empty(),
        attributes: Seq::empty(),
        value: nearest(0),
        temporality: Temporality::Unspecified,
        is_monotonic: false,
        count: 0,
        sum: nearest(0),
        min: nearest(0),
        max: nearest(0),
        bucket_counts: Seq::empty(),
        explicit_bounds: Seq::empty(),
        scale: 0,
        zero_count: 0,
        zero_threshold: nearest(0),
        positive_offset: 0,
        positive_bucket_counts: Seq::empty(),
        negative_offset: 0,
        negative_bucket_counts: Seq::empty(),
        quantiles: Seq::empty(),
        exemplars: Seq::empty(),
        flags: 0,
        fields: Seq::empty(),
        shared: None,
    }
}

/// `Arc::from` on a text: a shared copy of it.
#[verifier::external_body]
pub(crate) fn shared_text(text: &str) -> (r: Arc<str>)
    ensures
        (*r)@ == text@,
{
    Arc::from(text)
}

impl Default for MetricEvent {
    fn default() -> (r: MetricEvent)
        ensures
            r@ == blank_event(),
    {
        let zero = Double::zero();
        proof {
            reveal_strlit("");
        }
        let r = MetricEvent {
            timestamp: 0,
            start_timestamp: 0,
            metric_name: shared_text(""),
            metric_type: MetricType::Gauge,
            metric_unit: shared_text(""),
            metric_description: shared_text(""),
            service_name: shared_text(""),
            scope_name: shared_text(""),
            scope_version: shared_text(""),
            resource_attributes: Arc::new(JsonMap::new()),
            attributes: JsonMap::new(),
            value: zero,
            temporality: Temporality::Unspecified,
            is_monotonic: false,
            count: 0,
            sum: zero,
            min: zero,
            max: zero,
            bucket_counts: Vec::new(),
            explicit_bounds: Vec::new(),
            scale: 0,
            zero_count: 0,
            zero_threshold: zero,
            positive_offset: 0,
            positive_bucket_counts: Vec::new(),
            negative_offset: 0,
            negative_bucket_counts: Vec::new(),
            quantiles: Vec::new(),
            exemplars: Vec::new(),
            flags: 0,
            fields: JsonMap::new(),
            shared: None,
        };
        assert(r@ =~= blank_event());
        r
    }
}

impl EventView {
    /// The further column of that name: the event's own, or else a shared one.
    pub open spec fn extra(self, key: Seq<char>) -> Option<JsonView> {
        match value_at(self.fields, key) {
            Some(value) => Some(value),
            None => match self.shared {
                Some(shared) => value_at(shared, key),
                None => None,
            },
        }
    }

    /// The attribute of that name: the data point's own, or else one of its
    /// resource.
    pub open spec fn label(self, key: Seq<char>) -> Option<JsonView> {
        match value_at(self.attributes, key) {
            Some(value) => Some(value),
            None => value_at(self.resource_attributes, key),
        }
    }
}

impl MetricEvent {
    /// The event with a further column.
    pub fn with_field(self, key: &str, value: Json) -> (r: MetricEvent)
        ensures
            r@ == (EventView { fields: put(self@.fields, key@, value@), ..self@ }),
    {
        let mut event = self;
        event.insert(key, value);
        event
    }

    /// Adds a further column, and hands back the one of that name that it
    /// replaces.
    pub fn insert(&mut self, key: &str, value: Json) -> (r: Option<Json>)
        ensures
            final(self)@ == (EventView {
                fields: put(old(self)@.fields, key@, value@),
                ..old(self)@
            }),
            match r {
                Some(before) => value_at(old(self)@.fields, key@) == Some(before@),
                None => value_at(old(self)@.fields, key@) is None,
            },
    {
        self.fields.insert(key.to_owned(), value)
    }

    /// The further column of that name: first its own, then the shared ones.
    pub fn get(&self, key: &str) -> (r: Option<&Json>)
        ensures
            match r {
                Some(value) => self@.extra(key@) == Some(value@),
                None => self@.extra(key@) is None,
            },
    {
        match self.fields.get(key) {
            Some(value) => Some(value),
            None => match &self.shared {
                Some(shared) => shared.get(key),
                None => None,
            },
        }
    }

    /// The attribute of that name: first its own, then the resource's.
    pub fn attribute(&self, key: &str) -> (r: Option<&Json>)
        ensures
            match r {
                Some(value) => self@.label(key@) == Some(value@),
                None => self@.label(key@) is None,
            },
    {
        match self.attributes.get(key) {
            Some(value) => Some(value),
            None => self.resource_attributes.get(key),
        }
    }
}

} // verus!
