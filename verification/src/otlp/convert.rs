//! Export requests taken apart into events, one for each data point.
use crate::count::{capped, lemma_total_next, total};
use crate::double::{nearest, Double};
use crate::event::{
    blank_event, event_views, exemplar_views, shared_text, shared_view, EventView, Exemplar,
    ExemplarView, MetricEvent, MetricType, Quantile, Temporality,
};
use crate::json::{value_at, Entries, Json, JsonMap, JsonView};
use crate::otlp::attributes::{attributes, attributes_json, hex, hex_text};
use crate::otlp::model::{
    Buckets, Data, ExponentialHistogramDataPoint, ExportRequest, HistogramDataPoint,
    InstrumentationScope, Metric, NumberDataPoint, NumberValue, Resource, ResourceMetrics,
    SampledValue, ScopeMetrics, SummaryDataPoint, ValueAtQuantile,
};
use std::sync::Arc;
use vstd::prelude::*;

verus! {

/// The service of a resource that does not name one.
pub const UNKNOWN_SERVICE: &'static str = "unknown_service";

/// A number as a double; whole ones become the double next to them, and a
/// missing one is zero.
pub open spec fn number_of(value: Option<NumberValue>) -> Double {
    match value {
        Some(NumberValue::AsDouble(d)) => d,
        Some(NumberValue::AsInt(i)) => nearest(i as int),
        None => nearest(0),
    }
}

/// A double that may be missing, which then is zero.
pub open spec fn or_zero(value: Option<Double>) -> Double {
    match value {
        Some(d) => d,
        None => nearest(0),
    }
}

/// An exemplar of an event.
pub open spec fn exemplar_of(sample: SampledValue) -> ExemplarView {
    ExemplarView {
        timestamp: sample.time_unix_nano,
        value: number_of(sample.value),
        trace_id: hex_text(sample.trace_id@),
        span_id: hex_text(sample.span_id@),
        attributes: attributes_json(sample.filtered_attributes),
    }
}

/// The exemplars of an event.
pub open spec fn exemplars_of(samples: Seq<SampledValue>) -> Seq<ExemplarView> {
    samples.map_values(|sample: SampledValue| exemplar_of(sample))
}

/// The event for a point of a gauge or a sum. `base` has what the point shares
/// with others.
pub open spec fn number_event(point: NumberDataPoint, base: EventView) -> EventView {
    EventView {
        timestamp: point.time_unix_nano,
        start_timestamp: point.start_time_unix_nano,
        attributes: attributes_json(point.attributes),
        value: number_of(point.value),
        exemplars: exemplars_of(point.exemplars@),
        flags: point.flags,
        ..base
    }
}

/// The event for a point of a histogram.
pub open spec fn histogram_event(point: HistogramDataPoint, base: EventView) -> EventView {
    EventView {
        timestamp: point.time_unix_nano,
        start_timestamp: point.start_time_unix_nano,
        attributes: attributes_json(point.attributes),
        count: point.count,
        sum: or_zero(point.sum),
        min: or_zero(point.min),
        max: or_zero(point.max),
        bucket_counts: point.bucket_counts@,
        explicit_bounds: point.explicit_bounds@,
        exemplars: exemplars_of(point.exemplars@),
        flags: point.flags,
        ..base
    }
}

/// Where the buckets of one side start.
pub open spec fn offset_of(side: Option<Buckets>) -> i32 {
    match side {
        Some(buckets) => buckets.offset,
        None => 0,
    }
}

/// The counts in the buckets of one side.
pub open spec fn counts_of(side: Option<Buckets>) -> Seq<u64> {
    match side {
        Some(buckets) => buckets.bucket_counts@,
        None => Seq::empty(),
    }
}

/// The event for a point of an exponential histogram.
pub open spec fn exponential_event(
    point: ExponentialHistogramDataPoint,
    base: EventView,
) -> EventView {
    EventView {
        timestamp: point.time_unix_nano,
        start_timestamp: point.start_time_unix_nano,
        attributes: attributes_json(point.attributes),
        count: point.count,
        sum: or_zero(point.sum),
        min: or_zero(point.min),
        max: or_zero(point.max),
        scale: point.scale,
        zero_count: point.zero_count,
        zero_threshold: point.zero_threshold,
        positive_offset: offset_of(point.positive),
        positive_bucket_counts: counts_of(point.positive),
        negative_offset: offset_of(point.negative),
        negative_bucket_counts: counts_of(point.negative),
        exemplars: exemplars_of(point.exemplars@),
        flags: point.flags,
        ..base
    }
}

/// The quantiles of an event.
pub open spec fn quantiles_of(values: Seq<ValueAtQuantile>) -> Seq<Quantile> {
    values.map_values(|q: ValueAtQuantile| Quantile { quantile: q.quantile, value: q.value })
}

/// The event for a point of a summary.
pub open spec fn summary_event(point: SummaryDataPoint, base: EventView) -> EventView {
    EventView {
        timestamp: point.time_unix_nano,
        start_timestamp: point.start_time_unix_nano,
        attributes: attributes_json(point.attributes),
        count: point.count,
        sum: point.sum,
        quantiles: quantiles_of(point.quantile_values@),
        flags: point.flags,
        ..base
    }
}

/// The events for the data points of a metric, in their order. `base` has what
/// they share.
pub open spec fn data_events(data: Option<Data>, base: EventView) -> Seq<EventView> {
    match data {
        Some(Data::Gauge(gauge)) => {
            let base = EventView { metric_type: MetricType::Gauge, ..base };
            gauge.data_points@.map_values(|point: NumberDataPoint| number_event(point, base))
        },
        Some(Data::Sum(sum)) => {
            let base = EventView {
                metric_type: MetricType::Sum,
                temporality: Temporality::of_otlp(sum.aggregation_temporality),
                is_monotonic: sum.is_monotonic,
                ..base
            };
            sum.data_points@.map_values(|point: NumberDataPoint| number_event(point, base))
        },
        Some(Data::Histogram(histogram)) => {
            let base = EventView {
                metric_type: MetricType::Histogram,
                temporality: Temporality::of_otlp(histogram.aggregation_temporality),
                ..base
            };
            histogram.data_points@.map_values(
                |point: HistogramDataPoint| histogram_event(point, base),
            )
        },
        Some(Data::ExponentialHistogram(histogram)) => {
            let base = EventView {
                metric_type: MetricType::ExponentialHistogram,
                temporality: Temporality::of_otlp(histogram.aggregation_temporality),
                ..base
            };
            histogram.data_points@.map_values(
                |point: ExponentialHistogramDataPoint| exponential_event(point, base),
            )
        },
        Some(Data::Summary(summary)) => {
            let base = EventView { metric_type: MetricType::Summary, ..base };
            summary.data_points@.map_values(|point: SummaryDataPoint| summary_event(point, base))
        },
        None => Seq::empty(),
    }
}

/// The events for a metric. `base` has what its scope and resource say.
pub open spec fn metric_events(metric: Metric, base: EventView) -> Seq<EventView> {
    data_events(
        metric.data,
        EventView {
            metric_name: metric.name@,
            metric_unit: metric.unit@,
            metric_description: metric.description@,
            ..base
        },
    )
}

/// Runs of events one behind the other.
pub open spec fn in_a_row(runs: Seq<Seq<EventView>>) -> Seq<EventView>
    decreases runs.len(),
{
    if runs.len() == 0 {
        Seq::empty()
    } else {
        in_a_row(runs.drop_last()) + runs.last()
    }
}

/// The name of a scope; empty where the scope is not given.
pub open spec fn scope_name(scope: Option<InstrumentationScope>) -> Seq<char> {
    match scope {
        Some(scope) => scope.name@,
        None => Seq::empty(),
    }
}

/// The version of a scope; empty where the scope is not given.
pub open spec fn scope_version(scope: Option<InstrumentationScope>) -> Seq<char> {
    match scope {
        Some(scope) => scope.version@,
        None => Seq::empty(),
    }
}

/// The events for each metric of a scope. `base` has what its resource says.
pub open spec fn scope_runs(scope: ScopeMetrics, base: EventView) -> Seq<Seq<EventView>> {
    let base = EventView {
        scope_name: scope_name(scope.scope),
        scope_version: scope_version(scope.scope),
        ..base
    };
    scope.metrics@.map_values(|metric: Metric| metric_events(metric, base))
}

/// The attributes of a resource; none where the resource is not given.
pub open spec fn resource_attributes(resource: Option<Resource>) -> Entries {
    match resource {
        Some(resource) => attributes_json(resource.attributes),
        None => Seq::empty(),
    }
}

/// The service that a resource belongs to: the text under `service.name`, unless
/// that is missing or empty.
pub open spec fn service_of(attributes: Entries) -> Seq<char> {
    match value_at(attributes, "service.name"@) {
        Some(JsonView::String(name)) => if name.len() > 0 {
            name
        } else {
            UNKNOWN_SERVICE@
        },
        _ => UNKNOWN_SERVICE@,
    }
}

/// What the events of a resource share.
pub open spec fn resource_base(resource: Option<Resource>, shared: Option<Entries>) -> EventView {
    EventView {
        resource_attributes: resource_attributes(resource),
        service_name: service_of(resource_attributes(resource)),
        shared,
        ..blank_event()
    }
}

/// The events for each scope of a resource.
pub open spec fn resource_runs(metrics: ResourceMetrics, shared: Option<Entries>) -> Seq<
    Seq<EventView>,
> {
    let base = resource_base(metrics.resource, shared);
    metrics.scope_metrics@.map_values(|scope: ScopeMetrics| in_a_row(scope_runs(scope, base)))
}

/// The events for each resource of a request.
pub open spec fn request_runs(request: ExportRequest, shared: Option<Entries>) -> Seq<
    Seq<EventView>,
> {
    request.resource_metrics@.map_values(
        |metrics: ResourceMetrics| in_a_row(resource_runs(metrics, shared)),
    )
}

/// The events for a request: one for each data point, in their order, each with
/// the shared columns.
pub open spec fn converted(request: ExportRequest, shared: Option<Entries>) -> Seq<EventView> {
    in_a_row(request_runs(request, shared))
}

/// What the data points of one metric share.
struct Context {
    metric_name: Arc<str>,
    metric_unit: Arc<str>,
    metric_description: Arc<str>,
    service_name: Arc<str>,
    scope_name: Arc<str>,
    scope_version: Arc<str>,
    resource_attributes: Arc<JsonMap>,
    shared: Option<Arc<JsonMap>>,
}

impl Context {
    spec fn base(self) -> EventView {
        EventView {
            metric_name: (*self.metric_name)@,
            metric_unit: (*self.metric_unit)@,
            metric_description: (*self.metric_description)@,
            service_name: (*self.service_name)@,
            scope_name: (*self.scope_name)@,
            scope_version: (*self.scope_version)@,
            resource_attributes: self.resource_attributes@,
            shared: shared_view(self.shared),
            ..blank_event()
        }
    }

    /// An event with nothing but what is shared.
    fn event(&self, metric_type: MetricType) -> (r: MetricEvent)
        ensures
            r@ == (EventView { metric_type, ..self.base() }),
    {
        let r = MetricEvent {
            metric_name: Arc::clone(&self.metric_name),
            metric_type,
            metric_unit: Arc::clone(&self.metric_unit),
            metric_description: Arc::clone(&self.metric_description),
            service_name: Arc::clone(&self.service_name),
            scope_name: Arc::clone(&self.scope_name),
            scope_version: Arc::clone(&self.scope_version),
            resource_attributes: Arc::clone(&self.resource_attributes),
            shared: match &self.shared {
                Some(shared) => Some(Arc::clone(shared)),
                None => None,
            },
            ..MetricEvent::default()
        };
        assert(r@ =~= EventView { metric_type, ..self.base() });
        r
    }
}

fn number(value: Option<NumberValue>) -> (r: Double)
    ensures
        r == number_of(value),
{
    match value {
        Some(NumberValue::AsDouble(d)) => d,
        Some(NumberValue::AsInt(i)) => Double::from_i64(i),
        None => Double::zero(),
    }
}

fn or_none(value: Option<Double>) -> (r: Double)
    ensures
        r == or_zero(value),
{
    match value {
        Some(d) => d,
        None => Double::zero(),
    }
}

fn exemplars(list: Vec<SampledValue>) -> (r: Vec<Exemplar>)
    ensures
        exemplar_views(r@) == exemplars_of(list@),
{
    let mut r: Vec<Exemplar> = Vec::new();
    for sample in walk: list
        invariant
            walk.seq() == list@,
            r@.len() == walk.index(),
            forall|j: int| 0 <= j < r@.len() ==> (#[trigger] r@[j])@ == exemplar_of(list@[j]),
    {
        r.push(
            Exemplar {
                timestamp: sample.time_unix_nano,
                value: number(sample.value),
                trace_id: hex(sample.trace_id.as_slice()),
                span_id: hex(sample.span_id.as_slice()),
                attributes: attributes(sample.filtered_attributes),
            },
        );
    }
    assert(exemplar_views(r@) =~= exemplars_of(list@));
    r
}

fn number_point(point: NumberDataPoint, context: &Context, kind: MetricType) -> (r: MetricEvent)
    ensures
        r@ == number_event(point, EventView { metric_type: kind, ..context.base() }),
{
    let mut event = context.event(kind);
    event.timestamp = point.time_unix_nano;
    event.start_timestamp = point.start_time_unix_nano;
    event.attributes = attributes(point.attributes);
    event.value = number(point.value);
    event.exemplars = exemplars(point.exemplars);
    event.flags = point.flags;
    event
}

fn histogram_point(point: HistogramDataPoint, context: &Context) -> (r: MetricEvent)
    ensures
        r@ == histogram_event(
            point,
            EventView { metric_type: MetricType::Histogram, ..context.base() },
        ),
{
    let mut event = context.event(MetricType::Histogram);
    event.timestamp = point.time_unix_nano;
    event.start_timestamp = point.start_time_unix_nano;
    event.attributes = attributes(point.attributes);
    event.count = point.count;
    event.sum = or_none(point.sum);
    event.min = or_none(point.min);
    event.max = or_none(point.max);
    event.bucket_counts = point.bucket_counts;
    event.explicit_bounds = point.explicit_bounds;
    event.exemplars = exemplars(point.exemplars);
    event.flags = point.flags;
    event
}

fn exponential_histogram_point(point: ExponentialHistogramDataPoint, context: &Context) -> (r:
    MetricEvent)
    ensures
        r@ == exponential_event(
            point,
            EventView { metric_type: MetricType::ExponentialHistogram, ..context.base() },
        ),
{
    let mut event = context.event(MetricType::ExponentialHistogram);
    event.timestamp = point.time_unix_nano;
    event.start_timestamp = point.start_time_unix_nano;
    event.attributes = attributes(point.attributes);
    event.count = point.count;
    event.sum = or_none(point.sum);
    event.min = or_none(point.min);
    event.max = or_none(point.max);
    event.scale = point.scale;
    event.zero_count = point.zero_count;
    event.zero_threshold = point.zero_threshold;
    if let Some(positive) = point.positive {
        event.positive_offset = positive.offset;
        event.positive_bucket_counts = positive.bucket_counts;
    }
    if let Some(negative) = point.negative {
        event.negative_offset = negative.offset;
        event.negative_bucket_counts = negative.bucket_counts;
    }
    event.exemplars = exemplars(point.exemplars);
    event.flags = point.flags;
    event
}

fn summary_point(point: SummaryDataPoint, context: &Context) -> (r: MetricEvent)
    ensures
        r@ == summary_event(
            point,
            EventView { metric_type: MetricType::Summary, ..context.base() },
        ),
{
    let mut event = context.event(MetricType::Summary);
    event.timestamp = point.time_unix_nano;
    event.start_timestamp = point.start_time_unix_nano;
    event.attributes = attributes(point.attributes);
    event.count = point.count;
    event.sum = point.sum;
    event.quantiles = quantiles(point.quantile_values);
    event.flags = point.flags;
    event
}

fn quantiles(values: Vec<ValueAtQuantile>) -> (r: Vec<Quantile>)
    ensures
        r@ == quantiles_of(values@),
{
    let mut r: Vec<Quantile> = Vec::new();
    for q in walk: values
        invariant
            walk.seq() == values@,
            r@ == quantiles_of(values@.take(walk.index() as int)),
    {
        r.push(Quantile { quantile: q.quantile, value: q.value });
        assert(r@ =~= quantiles_of(values@.take(walk.index() + 1)));
    }
    assert(values@.take(values@.len() as int) =~= values@);
    r
}

/// An event more behind the others.
proof fn lemma_next_event(
    out: Seq<MetricEvent>,
    event: MetricEvent,
    start: Seq<EventView>,
    events: Seq<EventView>,
    i: int,
)
    requires
        0 <= i < events.len(),
        event@ == events[i],
        event_views(out) == start + events.take(i),
    ensures
        event_views(out.push(event)) == start + events.take(i + 1),
{
    assert(event_views(out.push(event)) =~= event_views(out).push(event@));
    assert(start + events.take(i + 1) =~= (start + events.take(i)).push(events[i]));
}

/// Puts the events for the data points of a metric behind the others.
fn convert_metric(data: Option<Data>, context: &Context, out: &mut Vec<MetricEvent>)
    ensures
        event_views(final(out)@) == event_views(old(out)@) + data_events(data, context.base()),
{
    let ghost before = out@;
    let ghost base = context.base();
    assert(event_views(out@) =~= event_views(before) + data_events(data, base).take(0));
    match data {
        Some(Data::Gauge(gauge)) => {
            for point in walk: gauge.data_points
                invariant
                    walk.seq() == gauge.data_points@,
                    base == context.base(),
                    data is Some && data->Some_0 == Data::Gauge(gauge),
                    event_views(out@) == event_views(before) + data_events(data, base).take(
                        walk.index() as int,
                    ),
            {
                let event = number_point(point, context, MetricType::Gauge);
                proof {
                    let i = walk.index() as int;
                    assert(event@ =~= data_events(data, base)[i]);
                    lemma_next_event(out@, event, event_views(before), data_events(data, base), i);
                }
                out.push(event);
            }
        },
        Some(Data::Sum(sum)) => {
            let temporality = Temporality::from_otlp(sum.aggregation_temporality);
            for point in walk: sum.data_points
                invariant
                    walk.seq() == sum.data_points@,
                    base == context.base(),
                    data is Some && data->Some_0 == Data::Sum(sum),
                    temporality == Temporality::of_otlp(sum.aggregation_temporality),
                    event_views(out@) == event_views(before) + data_events(data, base).take(
                        walk.index() as int,
                    ),
            {
                let mut event = number_point(point, context, MetricType::Sum);
                event.temporality = temporality;
                event.is_monotonic = sum.is_monotonic;
                proof {
                    let i = walk.index() as int;
                    assert(event@ =~= data_events(data, base)[i]);
                    lemma_next_event(out@, event, event_views(before), data_events(data, base), i);
                }
                out.push(event);
            }
        },
        Some(Data::Histogram(histogram)) => {
            let temporality = Temporality::from_otlp(histogram.aggregation_temporality);
            for point in walk: histogram.data_points
                invariant
                    walk.seq() == histogram.data_points@,
                    base == context.base(),
                    data is Some && data->Some_0 == Data::Histogram(histogram),
                    temporality == Temporality::of_otlp(histogram.aggregation_temporality),
                    event_views(out@) == event_views(before) + data_events(data, base).take(
                        walk.index() as int,
                    ),
            {
                let mut event = histogram_point(point, context);
                event.temporality = temporality;
                proof {
                    let i = walk.index() as int;
                    assert(event@ =~= data_events(data, base)[i]);
                    lemma_next_event(out@, event, event_views(before), data_events(data, base), i);
                }
                out.push(event);
            }
        },
        Some(Data::ExponentialHistogram(histogram)) => {
            let temporality = Temporality::from_otlp(histogram.aggregation_temporality);
            for point in walk: histogram.data_points
                invariant
                    walk.seq() == histogram.data_points@,
                    base == context.base(),
                    data is Some && data->Some_0 == Data::ExponentialHistogram(histogram),
                    temporality == Temporality::of_otlp(histogram.aggregation_temporality),
                    event_views(out@) == event_views(before) + data_events(data, base).take(
                        walk.index() as int,
                    ),
            {
                let mut event = exponential_histogram_point(point, context);
                event.temporality = temporality;
                proof {
                    let i = walk.index() as int;
                    assert(event@ =~= data_events(data, base)[i]);
                    lemma_next_event(out@, event, event_views(before), data_events(data, base), i);
                }
                out.push(event);
            }
        },
        Some(Data::Summary(summary)) => {
            for point in walk: summary.data_points
                invariant
                    walk.seq() == summary.data_points@,
                    base == context.base(),
                    data is Some && data->Some_0 == Data::Summary(summary),
                    event_views(out@) == event_views(before) + data_events(data, base).take(
                        walk.index() as int,
                    ),
            {
                let event = summary_point(point, context);
                proof {
                    let i = walk.index() as int;
                    assert(event@ =~= data_events(data, base)[i]);
                    lemma_next_event(out@, event, event_views(before), data_events(data, base), i);
                }
                out.push(event);
            }
        },
        None => {},
    }
    assert(data_events(data, base).take(data_events(data, base).len() as int) =~= data_events(
        data,
        base,
    ));
}

/// Runs of events, and one run more.
proof fn lemma_next_run(runs: Seq<Seq<EventView>>, i: int)
    requires
        0 <= i < runs.len(),
    ensures
        in_a_row(runs.take(i + 1)) == in_a_row(runs.take(i)) + runs[i],
{
    assert(runs.take(i + 1).drop_last() =~= runs.take(i));
}

/// The service that a resource belongs to.
fn service(attributes: &JsonMap) -> (r: Arc<str>)
    ensures
        (*r)@ == service_of(attributes@),
{
    match attributes.get("service.name") {
        Some(Json::String(name)) => if !name.as_str().is_empty() {
            shared_text(name.as_str())
        } else {
            shared_text(UNKNOWN_SERVICE)
        },
        _ => shared_text(UNKNOWN_SERVICE),
    }
}

/// Puts the events of a scope behind the others.
fn convert_scope(
    metrics: ScopeMetrics,
    service_name: &Arc<str>,
    resource_attributes: &Arc<JsonMap>,
    shared: Option<&Arc<JsonMap>>,
    out: &mut Vec<MetricEvent>,
)
    ensures
        event_views(final(out)@) == event_views(old(out)@) + in_a_row(
            scope_runs(
                metrics,
                EventView {
                    service_name: (**service_name)@,
                    resource_attributes: (**resource_attributes)@,
                    shared: given_view(shared),
                    ..blank_event()
                },
            ),
        ),
{
    let ghost resource_base = EventView {
        service_name: (**service_name)@,
        resource_attributes: (**resource_attributes)@,
        shared: given_view(shared),
        ..blank_event()
    };
    let ghost runs = scope_runs(metrics, resource_base);
    let ghost before = event_views(out@);
    proof {
        reveal_strlit("");
        assert(runs.take(0) =~= Seq::empty());
        assert(event_views(out@) =~= before + in_a_row(runs.take(0)));
    }
    let (scope_name, scope_version): (Arc<str>, Arc<str>) = match &metrics.scope {
        Some(scope) => (shared_text(scope.name.as_str()), shared_text(scope.version.as_str())),
        None => (shared_text(""), shared_text("")),
    };
    for metric in walk: metrics.metrics
        invariant
            walk.seq() == metrics.metrics@,
            resource_base == (EventView {
                service_name: (**service_name)@,
                resource_attributes: (**resource_attributes)@,
                shared: given_view(shared),
                ..blank_event()
            }),
            runs == scope_runs(metrics, resource_base),
            (*scope_name)@ == self::scope_name(metrics.scope),
            (*scope_version)@ == self::scope_version(metrics.scope),
            event_views(out@) == before + in_a_row(runs.take(walk.index() as int)),
    {
        let context = Context {
            metric_name: shared_text(metric.name.as_str()),
            metric_unit: shared_text(metric.unit.as_str()),
            metric_description: shared_text(metric.description.as_str()),
            service_name: Arc::clone(service_name),
            scope_name: Arc::clone(&scope_name),
            scope_version: Arc::clone(&scope_version),
            resource_attributes: Arc::clone(resource_attributes),
            shared: match shared {
                Some(shared) => Some(Arc::clone(shared)),
                None => None,
            },
        };
        proof {
            let i = walk.index() as int;
            lemma_next_run(runs, i);
            assert(context.base() =~= EventView {
                metric_name: metric.name@,
                metric_unit: metric.unit@,
                metric_description: metric.description@,
                scope_name: self::scope_name(metrics.scope),
                scope_version: self::scope_version(metrics.scope),
                ..resource_base
            });
            assert(runs[i] == data_events(metric.data, context.base()));
            assert(before + in_a_row(runs.take(i)) + runs[i] =~= before + in_a_row(
                runs.take(i + 1),
            ));
        }
        convert_metric(metric.data, &context, out);
    }
    assert(runs.take(runs.len() as int) =~= runs);
}

/// What the shared columns say that were handed in.
pub open spec fn given_view(shared: Option<&Arc<JsonMap>>) -> Option<Entries> {
    match shared {
        Some(map) => Some((**map)@),
        None => None,
    }
}

/// The events for an export request, one for each data point. `shared` is put
/// on every one of them.
pub fn convert(request: ExportRequest, shared: Option<&Arc<JsonMap>>) -> (r: Vec<MetricEvent>)
    ensures
        event_views(r@) == converted(request, given_view(shared)),
{
    let mut out: Vec<MetricEvent> = Vec::new();
    let ghost runs = request_runs(request, given_view(shared));
    proof {
        assert(runs.take(0) =~= Seq::empty());
        assert(event_views(out@) =~= in_a_row(runs.take(0)));
    }
    for metrics in walk: request.resource_metrics
        invariant
            walk.seq() == request.resource_metrics@,
            runs == request_runs(request, given_view(shared)),
            event_views(out@) == in_a_row(runs.take(walk.index() as int)),
    {
        let ghost i = walk.index() as int;
        let ghost before = event_views(out@);
        let ghost scopes = resource_runs(metrics, given_view(shared));
        let attributes = match metrics.resource {
            Some(resource) => attributes(resource.attributes),
            None => JsonMap::new(),
        };
        let service_name = service(&attributes);
        let attributes = Arc::new(attributes);
        proof {
            lemma_next_run(runs, i);
            assert(runs[i] == in_a_row(scopes));
            assert(scopes.take(0) =~= Seq::empty());
            assert(event_views(out@) =~= before + in_a_row(scopes.take(0)));
        }
        for scope in inner: metrics.scope_metrics
            invariant
                inner.seq() == metrics.scope_metrics@,
                scopes == resource_runs(metrics, given_view(shared)),
                attributes@ == resource_attributes(metrics.resource),
                (*service_name)@ == service_of(attributes@),
                event_views(out@) == before + in_a_row(scopes.take(inner.index() as int)),
        {
            let ghost k = inner.index() as int;
            proof {
                lemma_next_run(scopes, k);
                let base = resource_base(metrics.resource, given_view(shared));
                assert(base =~= EventView {
                    service_name: (*service_name)@,
                    resource_attributes: attributes@,
                    shared: given_view(shared),
                    ..blank_event()
                });
                assert(scopes[k] == in_a_row(scope_runs(scope, base)));
                assert(before + in_a_row(scopes.take(k)) + scopes[k] =~= before + in_a_row(
                    scopes.take(k + 1),
                ));
            }
            convert_scope(scope, &service_name, &attributes, shared, &mut out);
        }
        assert(scopes.take(scopes.len() as int) =~= scopes);
    }
    assert(runs.take(runs.len() as int) =~= runs);
    out
}

/// How many data points a metric has.
pub open spec fn data_count(data: Option<Data>) -> nat {
    match data {
        Some(Data::Gauge(gauge)) => gauge.data_points@.len(),
        Some(Data::Sum(sum)) => sum.data_points@.len(),
        Some(Data::Histogram(histogram)) => histogram.data_points@.len(),
        Some(Data::ExponentialHistogram(histogram)) => histogram.data_points@.len(),
        Some(Data::Summary(summary)) => summary.data_points@.len(),
        None => 0,
    }
}

/// How many data points each metric of a scope has.
pub open spec fn metric_counts(metrics: Seq<Metric>) -> Seq<nat> {
    metrics.map_values(|metric: Metric| data_count(metric.data))
}

/// How many data points each scope of a resource has.
pub open spec fn scope_counts(scopes: Seq<ScopeMetrics>) -> Seq<nat> {
    scopes.map_values(|scope: ScopeMetrics| total(metric_counts(scope.metrics@)))
}

/// How many data points each resource of a request has.
pub open spec fn resource_counts(resources: Seq<ResourceMetrics>) -> Seq<nat> {
    resources.map_values(|metrics: ResourceMetrics| total(scope_counts(metrics.scope_metrics@)))
}

/// How many data points a request has.
pub open spec fn point_count(request: ExportRequest) -> nat {
    total(resource_counts(request.resource_metrics@))
}

fn count_data(data: &Option<Data>) -> (r: usize)
    ensures
        r == data_count(*data),
{
    match data {
        Some(Data::Gauge(gauge)) => gauge.data_points.len(),
        Some(Data::Sum(sum)) => sum.data_points.len(),
        Some(Data::Histogram(histogram)) => histogram.data_points.len(),
        Some(Data::ExponentialHistogram(histogram)) => histogram.data_points.len(),
        Some(Data::Summary(summary)) => summary.data_points.len(),
        None => 0,
    }
}

fn count_metrics(metrics: &Vec<Metric>) -> (r: usize)
    ensures
        r == capped(total(metric_counts(metrics@))),
{
    let ghost counts = metric_counts(metrics@);
    let mut points: usize = 0;
    let mut i: usize = 0;
    while i < metrics.len()
        invariant
            i <= metrics@.len(),
            counts == metric_counts(metrics@),
            points == capped(total(counts.take(i as int))),
        decreases metrics@.len() - i,
    {
        proof {
            lemma_total_next(counts, i as int);
        }
        points = points.saturating_add(count_data(&metrics[i].data));
        i += 1;
    }
    assert(counts.take(i as int) =~= counts);
    points
}

fn count_scopes(scopes: &Vec<ScopeMetrics>) -> (r: usize)
    ensures
        r == capped(total(scope_counts(scopes@))),
{
    let ghost counts = scope_counts(scopes@);
    let mut points: usize = 0;
    let mut i: usize = 0;
    while i < scopes.len()
        invariant
            i <= scopes@.len(),
            counts == scope_counts(scopes@),
            points == capped(total(counts.take(i as int))),
        decreases scopes@.len() - i,
    {
        proof {
            lemma_total_next(counts, i as int);
        }
        points = points.saturating_add(count_metrics(&scopes[i].metrics));
        i += 1;
    }
    assert(counts.take(i as int) =~= counts);
    points
}

/// How many data points a request has, as far as a `usize` counts.
pub fn count_points(request: &ExportRequest) -> (r: usize)
    ensures
        r == capped(point_count(*request)),
{
    let resources = &request.resource_metrics;
    let ghost counts = resource_counts(resources@);
    let mut points: usize = 0;
    let mut i: usize = 0;
    while i < resources.len()
        invariant
            i <= resources@.len(),
            counts == resource_counts(resources@),
            points == capped(total(counts.take(i as int))),
        decreases resources@.len() - i,
    {
        proof {
            lemma_total_next(counts, i as int);
        }
        points = points.saturating_add(count_scopes(&resources[i].scope_metrics));
        i += 1;
    }
    assert(counts.take(i as int) =~= counts);
    points
}

/// How many data points of a request came out of its decoding, where those are
/// fewer than went in.
pub fn points_lost(request: &ExportRequest, expected: usize) -> (r: Option<usize>)
    ensures
        r == if capped(point_count(*request)) < expected {
            Some(capped(point_count(*request)))
        } else {
            None
        },
{
    let decoded: usize = count_points(request);
    if decoded < expected {
        Some(decoded)
    } else {
        None
    }
}

/// Runs of events have as many events as the runs together.
pub proof fn lemma_run_lengths(runs: Seq<Seq<EventView>>, counts: Seq<nat>)
    requires
        runs.len() == counts.len(),
        forall|i: int| 0 <= i < runs.len() ==> (#[trigger] runs[i]).len() == counts[i],
    ensures
        in_a_row(runs).len() == total(counts),
    decreases runs.len(),
{
    if runs.len() > 0 {
        assert forall|i: int| 0 <= i < runs.len() - 1 implies (#[trigger] runs.drop_last()[i]).len()
            == counts.drop_last()[i] by {
            assert(runs.drop_last()[i] == runs[i]);
        }
        lemma_run_lengths(runs.drop_last(), counts.drop_last());
    }
}

/// There is one event for each data point, no more and no fewer.
pub proof fn lemma_one_event_per_point(request: ExportRequest, shared: Option<Entries>)
    ensures
        converted(request, shared).len() == point_count(request),
{
    let resources = request.resource_metrics@;
    assert forall|i: int| 0 <= i < resources.len() implies (#[trigger] request_runs(
        request,
        shared,
    )[i]).len() == resource_counts(resources)[i] by {
        let base = resource_base(resources[i].resource, shared);
        let scopes = resources[i].scope_metrics@;
        let runs = resource_runs(resources[i], shared);
        assert forall|k: int| 0 <= k < scopes.len() implies (#[trigger] runs[k]).len()
            == scope_counts(scopes)[k] by {
            let inner = scope_runs(scopes[k], base);
            lemma_run_lengths(inner, metric_counts(scopes[k].metrics@));
        }
        lemma_run_lengths(runs, scope_counts(scopes));
    }
    lemma_run_lengths(request_runs(request, shared), resource_counts(resources));
}

/// What holds of every event of some runs holds of every event of them all.
proof fn lemma_runs_all(runs: Seq<Seq<EventView>>, holds: spec_fn(EventView) -> bool)
    requires
        forall|i: int, k: int|
            0 <= i < runs.len() && 0 <= k < runs[i].len() ==> holds(#[trigger] runs[i][k]),
    ensures
        forall|k: int| 0 <= k < in_a_row(runs).len() ==> holds(#[trigger] in_a_row(runs)[k]),
    decreases runs.len(),
{
    if runs.len() > 0 {
        let rest = runs.drop_last();
        assert forall|i: int, k: int| 0 <= i < rest.len() && 0 <= k < rest[i].len() implies holds(
            #[trigger] rest[i][k],
        ) by {
            assert(rest[i][k] == runs[i][k]);
        }
        lemma_runs_all(rest, holds);
        assert forall|k: int| 0 <= k < in_a_row(runs).len() implies holds(
            #[trigger] in_a_row(runs)[k],
        ) by {
            let n = in_a_row(rest).len();
            if k < n {
                assert(in_a_row(runs)[k] == in_a_row(rest)[k]);
            } else {
                assert(in_a_row(runs)[k] == runs[runs.len() - 1][k - n]);
            }
        }
    }
}

/// The columns of an exponential histogram are at their defaults.
pub open spec fn no_exponential(event: EventView) -> bool {
    &&& event.scale == 0
    &&& event.zero_count == 0
    &&& event.zero_threshold == nearest(0)
    &&& event.positive_offset == 0
    &&& event.positive_bucket_counts.len() == 0
    &&& event.negative_offset == 0
    &&& event.negative_bucket_counts.len() == 0
}

/// An event fills the columns that its kind of metric has something for and
/// leaves the others at their defaults.
pub open spec fn keeps_to_its_kind(event: EventView) -> bool {
    let kind = event.metric_type;
    &&& !kind.scalar() ==> event.value == nearest(0)
    &&& kind.scalar() ==> event.count == 0 && event.sum == nearest(0)
    &&& !(kind is Histogram || kind is ExponentialHistogram) ==> event.min == nearest(0)
        && event.max == nearest(0)
    &&& !(kind is Sum) ==> !event.is_monotonic
    &&& kind is Gauge || kind is Summary ==> event.temporality is Unspecified
    &&& !(kind is Histogram) ==> event.bucket_counts.len() == 0 && event.explicit_bounds.len() == 0
    &&& !(kind is ExponentialHistogram) ==> no_exponential(event)
    &&& !(kind is Summary) ==> event.quantiles.len() == 0
    &&& kind is Summary ==> event.exemplars.len() == 0
}

/// Every event of a request keeps to its kind, carries the shared columns, and
/// has no further ones of its own.
pub proof fn lemma_events_keep_to_their_kind(
    request: ExportRequest,
    shared: Option<Entries>,
    at: int,
)
    requires
        0 <= at < converted(request, shared).len(),
    ensures
        keeps_to_its_kind(converted(request, shared)[at]),
        converted(request, shared)[at].shared == shared,
        converted(request, shared)[at].fields.len() == 0,
{
    let holds = |event: EventView|
        keeps_to_its_kind(event) && event.shared == shared && event.fields.len() == 0;
    let outer = request_runs(request, shared);
    assert forall|i: int, n: int| 0 <= i < outer.len() && 0 <= n < outer[i].len() implies holds(
        #[trigger] outer[i][n],
    ) by {
        let metrics = request.resource_metrics@[i];
        let base = resource_base(metrics.resource, shared);
        let middle = resource_runs(metrics, shared);
        assert forall|k: int, n: int|
            0 <= k < middle.len() && 0 <= n < middle[k].len() implies holds(
            #[trigger] middle[k][n],
        ) by {
            let scope = metrics.scope_metrics@[k];
            lemma_runs_all(scope_runs(scope, base), holds);
        }
        lemma_runs_all(middle, holds);
    }
    lemma_runs_all(outer, holds);
}

} // verus!
