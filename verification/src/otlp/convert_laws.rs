//! What each event says of its data point, and of the levels above it.
use crate::count::total;
use crate::double::{lemma_small_whole_numbers_are_exact, Double};
use crate::event::{EventView, ExemplarView, Quantile, Temporality};
use crate::json::{ordered, value_at, Entries, JsonView};
use crate::otlp::attributes::{
    attributes_json, base64_text, hex_digit, hex_text, lemma_attributes_ordered,
    lemma_last_attribute_counts, lemma_no_other_attribute, value_json,
};
use crate::otlp::convert::{
    converted, in_a_row, lemma_one_event_per_point, lemma_run_lengths, metric_counts, number_of,
    point_count, request_runs, resource_base, resource_counts, resource_runs, scope_counts,
    scope_runs,
};
use crate::otlp::model::{
    Any, AnyValue, Buckets, Data, ExponentialHistogramDataPoint, ExportRequest,
    HistogramDataPoint, KeyValue, Metric, NumberDataPoint, NumberValue, ResourceMetrics,
    SampledValue, ScopeMetrics, SummaryDataPoint, ValueAtQuantile,
};
use vstd::prelude::*;

verus! {

/// A metric of a request, by the places of its resource, its scope and itself.
pub open spec fn metric_at(
    request: ExportRequest,
    resource: int,
    scope: int,
    metric: int,
) -> Metric {
    request.resource_metrics@[resource].scope_metrics@[scope].metrics@[metric]
}

/// There is a metric at these places.
pub open spec fn has_metric(
    request: ExportRequest,
    resource: int,
    scope: int,
    metric: int,
) -> bool {
    &&& 0 <= resource < request.resource_metrics@.len()
    &&& 0 <= scope < request.resource_metrics@[resource].scope_metrics@.len()
    &&& 0 <= metric < request.resource_metrics@[resource].scope_metrics@[scope].metrics@.len()
}

/// How many points some data holds.
pub open spec fn points_held(data: Option<Data>) -> nat {
    match data {
        Some(Data::Gauge(gauge)) => gauge.data_points@.len(),
        Some(Data::Sum(sum)) => sum.data_points@.len(),
        Some(Data::Histogram(histogram)) => histogram.data_points@.len(),
        Some(Data::ExponentialHistogram(histogram)) => histogram.data_points@.len(),
        Some(Data::Summary(summary)) => summary.data_points@.len(),
        None => 0,
    }
}

/// How many data points some metrics have.
pub open spec fn points_of_metrics(metrics: Seq<Metric>) -> nat
    decreases metrics.len(),
{
    if metrics.len() == 0 {
        0
    } else {
        points_of_metrics(metrics.drop_last()) + points_held(metrics.last().data)
    }
}

/// How many data points some scopes have.
pub open spec fn points_of_scopes(scopes: Seq<ScopeMetrics>) -> nat
    decreases scopes.len(),
{
    if scopes.len() == 0 {
        0
    } else {
        points_of_scopes(scopes.drop_last()) + points_of_metrics(scopes.last().metrics@)
    }
}

/// How many data points some resources have.
pub open spec fn points_of_resources(resources: Seq<ResourceMetrics>) -> nat
    decreases resources.len(),
{
    if resources.len() == 0 {
        0
    } else {
        points_of_resources(resources.drop_last()) + points_of_scopes(
            resources.last().scope_metrics@,
        )
    }
}

proof fn lemma_points_of_metrics(metrics: Seq<Metric>)
    ensures
        total(metric_counts(metrics)) == points_of_metrics(metrics),
    decreases metrics.len(),
{
    if metrics.len() > 0 {
        assert(metric_counts(metrics).drop_last() =~= metric_counts(metrics.drop_last()));
        lemma_points_of_metrics(metrics.drop_last());
    }
}

proof fn lemma_points_of_scopes(scopes: Seq<ScopeMetrics>)
    ensures
        total(scope_counts(scopes)) == points_of_scopes(scopes),
    decreases scopes.len(),
{
    if scopes.len() > 0 {
        assert(scope_counts(scopes).drop_last() =~= scope_counts(scopes.drop_last()));
        lemma_points_of_scopes(scopes.drop_last());
        lemma_points_of_metrics(scopes.last().metrics@);
    }
}

proof fn lemma_points_of_resources(resources: Seq<ResourceMetrics>)
    ensures
        total(resource_counts(resources)) == points_of_resources(resources),
    decreases resources.len(),
{
    if resources.len() > 0 {
        assert(resource_counts(resources).drop_last() =~= resource_counts(resources.drop_last()));
        lemma_points_of_resources(resources.drop_last());
        lemma_points_of_scopes(resources.last().scope_metrics@);
    }
}

/// There are as many events as the metrics of a request have data points.
pub proof fn lemma_as_many_events_as_points(request: ExportRequest, shared: Option<Entries>)
    ensures
        converted(request, shared).len() == points_of_resources(request.resource_metrics@),
        point_count(request) == points_of_resources(request.resource_metrics@),
{
    lemma_one_event_per_point(request, shared);
    lemma_points_of_resources(request.resource_metrics@);
}

/// How many data points of a request stand before a metric.
pub open spec fn points_before(
    request: ExportRequest,
    resource: int,
    scope: int,
    metric: int,
) -> nat {
    let resources = request.resource_metrics@;
    let scopes = resources[resource].scope_metrics@;
    points_of_resources(resources.take(resource)) + points_of_scopes(scopes.take(scope))
        + points_of_metrics(scopes[scope].metrics@.take(metric))
}

/// The event that stands where a data point of a metric does.
pub open spec fn event_at(
    request: ExportRequest,
    shared: Option<Entries>,
    resource: int,
    scope: int,
    metric: int,
    point: int,
) -> EventView {
    converted(request, shared)[points_before(request, resource, scope, metric) + point]
}

/// An event of some runs stands behind the runs before its own.
proof fn lemma_event_of_run(
    runs: Seq<Seq<EventView>>,
    counts: Seq<nat>,
    i: int,
    k: int,
)
    requires
        runs.len() == counts.len(),
        forall|j: int| 0 <= j < runs.len() ==> (#[trigger] runs[j]).len() == counts[j],
        0 <= i < runs.len(),
        0 <= k < runs[i].len(),
    ensures
        in_a_row(runs)[total(counts.take(i)) + k] == runs[i][k],
        0 <= total(counts.take(i)) + k < in_a_row(runs).len(),
    decreases runs.len(),
{
    let rest = runs.drop_last();
    let fewer = counts.drop_last();
    assert forall|j: int| 0 <= j < rest.len() implies (#[trigger] rest[j]).len() == fewer[j] by {
        assert(rest[j] == runs[j]);
    }
    lemma_run_lengths(rest, fewer);
    lemma_run_lengths(runs, counts);
    if i < rest.len() {
        lemma_event_of_run(rest, fewer, i, k);
        assert(fewer.take(i) =~= counts.take(i));
        assert(rest[i] == runs[i]);
    } else {
        assert(counts.take(i) =~= fewer);
    }
}

/// The events of a metric stand in their place among the others, made of what
/// the levels above say.
proof fn lemma_place(
    request: ExportRequest,
    shared: Option<Entries>,
    resource: int,
    scope: int,
    metric: int,
    point: int,
)
    requires
        has_metric(request, resource, scope, metric),
        0 <= point < points_held(metric_at(request, resource, scope, metric).data),
    ensures
        ({
            let resources = request.resource_metrics@[resource];
            let scopes = resources.scope_metrics@[scope];
            let base = resource_base(resources.resource, shared);
            event_at(request, shared, resource, scope, metric, point) == scope_runs(
                scopes,
                base,
            )[metric][point]
        }),
{
    let resources = request.resource_metrics@;
    let scopes = resources[resource].scope_metrics@;
    let metrics = scopes[scope].metrics@;
    let base = resource_base(resources[resource].resource, shared);
    let inner = scope_runs(scopes[scope], base);
    let middle = resource_runs(resources[resource], shared);
    let outer = request_runs(request, shared);
    lemma_points_of_resources(resources.take(resource));
    lemma_points_of_scopes(scopes.take(scope));
    lemma_points_of_metrics(metrics.take(metric));
    lemma_event_of_run(inner, metric_counts(metrics), metric, point);
    assert(metric_counts(metrics).take(metric) =~= metric_counts(metrics.take(metric)));
    let first = total(metric_counts(metrics.take(metric))) + point;
    assert(middle[scope] == in_a_row(inner));
    assert forall|k: int| 0 <= k < scopes.len() implies (#[trigger] middle[k]).len()
        == scope_counts(scopes)[k] by {
        lemma_run_lengths(scope_runs(scopes[k], base), metric_counts(scopes[k].metrics@));
    }
    lemma_event_of_run(middle, scope_counts(scopes), scope, first);
    assert(scope_counts(scopes).take(scope) =~= scope_counts(scopes.take(scope)));
    let second = total(scope_counts(scopes.take(scope))) + first;
    assert(outer[resource] == in_a_row(middle));
    assert forall|i: int| 0 <= i < resources.len() implies (#[trigger] outer[i]).len()
        == resource_counts(resources)[i] by {
        let here = resource_base(resources[i].resource, shared);
        let under = resources[i].scope_metrics@;
        let runs = resource_runs(resources[i], shared);
        assert forall|k: int| 0 <= k < under.len() implies (#[trigger] runs[k]).len()
            == scope_counts(under)[k] by {
            lemma_run_lengths(scope_runs(under[k], here), metric_counts(under[k].metrics@));
        }
        lemma_run_lengths(runs, scope_counts(under));
    }
    lemma_event_of_run(outer, resource_counts(resources), resource, second);
    assert(resource_counts(resources).take(resource) =~= resource_counts(resources.take(resource)));
}

/// A value as JSON, by what it is: texts, booleans and numbers as they are, bytes
/// in base64, values and members one for one; what JSON cannot write is null.
pub open spec fn says(json: JsonView, value: Option<AnyValue>) -> bool {
    match value {
        Some(AnyValue { value: Some(any) }) => match any {
            Any::StringValue(text) => json == JsonView::String(text@),
            Any::BoolValue(b) => json == JsonView::Bool(b),
            Any::IntValue(n) => json is Number && whole_of(json) == n,
            Any::DoubleValue(d) => if d.finite() {
                json is Number && json->Number_0 is Float && json->Number_0->Float_0 == d
            } else {
                json is Null
            },
            Any::BytesValue(bytes) => json == JsonView::String(base64_text(bytes@)),
            Any::ArrayValue(values) => json is Array && json->Array_0.len() == values@.len()
                && forall|i: int|
                0 <= i < values@.len() ==> (#[trigger] json->Array_0[i]) == value_json(
                    Some(values@[i]),
                ),
            Any::KvlistValue(list) => json is Object && are_attributes(json->Object_0, list@),
            Any::StringValueStrindex(_) => json is Null,
        },
        _ => json is Null,
    }
}

/// The whole number that a JSON number is.
pub open spec fn whole_of(json: JsonView) -> int {
    match json->Number_0 {
        crate::json::Number::PosInt(n) => n as int,
        crate::json::Number::NegInt(n) => n as int,
        crate::json::Number::Float(_) => 0,
    }
}

/// Attributes are those of a list: under each key the value that comes last with
/// it, and no other key. The keys are in order.
pub open spec fn are_attributes(entries: Entries, list: Seq<KeyValue>) -> bool {
    &&& ordered(entries)
    &&& forall|i: int|
        0 <= i < list.len() && (forall|j: int|
            i < j < list.len() ==> (#[trigger] list[j]).key@ != list[i].key@) ==> value_at(
            entries,
            (#[trigger] list[i]).key@,
        ) == Some(value_json(list[i].value))
    &&& forall|key: Seq<char>|
        (forall|i: int| 0 <= i < list.len() ==> (#[trigger] list[i]).key@ != key)
            ==> #[trigger] value_at(entries, key) is None
}

/// The attributes that are made of a list are those of the list.
pub proof fn lemma_attributes_are_those_of_the_list(list: Vec<KeyValue>)
    ensures
        are_attributes(attributes_json(list), list@),
{
    lemma_attributes_ordered(list, list@.len());
    assert forall|i: int|
        0 <= i < list@.len() && (forall|j: int|
            i < j < list@.len() ==> (#[trigger] list@[j]).key@ != list@[i].key@) implies value_at(
        attributes_json(list),
        (#[trigger] list@[i]).key@,
    ) == Some(value_json(list@[i].value)) by {
        lemma_last_attribute_counts(list, i);
    }
    assert forall|key: Seq<char>|
        (forall|i: int| 0 <= i < list@.len() ==> (#[trigger] list@[i]).key@ != key) implies
        #[trigger] value_at(attributes_json(list), key) is None by {
        lemma_no_other_attribute(list, key);
    }
}

/// The JSON of a value says what the value is.
pub proof fn lemma_json_says_the_value(value: Option<AnyValue>)
    ensures
        says(value_json(value), value),
{
    if let Some(AnyValue { value: Some(Any::KvlistValue(list)) }) = value {
        lemma_attributes_are_those_of_the_list(list);
        assert(value_json(value)->Object_0 == attributes_json(list));
    }
}

/// What a digit of a trace or span id stands for.
pub open spec fn nibble(c: char) -> int {
    if '0' <= c <= '9' {
        c as int - '0' as int
    } else {
        c as int - 'a' as int + 10
    }
}

/// An id is written with two lower-case digits for each byte, the higher half
/// first.
pub open spec fn is_hex_of(text: Seq<char>, bytes: Seq<u8>) -> bool {
    &&& text.len() == 2 * bytes.len()
    &&& forall|i: int|
        0 <= i < bytes.len() ==> (#[trigger] bytes[i]) as int == 16 * nibble(text[2 * i]) + nibble(
            text[2 * i + 1],
        )
    &&& forall|i: int|
        0 <= i < text.len() ==> ('0' <= #[trigger] text[i] <= '9' || 'a' <= text[i] <= 'f')
}

/// The digits of bytes stand for the bytes.
pub proof fn lemma_hex_reads_back(bytes: Seq<u8>)
    ensures
        is_hex_of(hex_text(bytes), bytes),
{
    let text = hex_text(bytes);
    assert forall|n: int| 0 <= n < 16 implies nibble(#[trigger] hex_digit(n)) == n && ('0'
        <= hex_digit(n) <= '9' || 'a' <= hex_digit(n) <= 'f') by {
        assert(n < 10 ==> hex_digit(n) as int == '0' as int + n);
        assert(n >= 10 ==> hex_digit(n) as int == 'a' as int + n - 10);
    }
    assert forall|i: int| 0 <= i < bytes.len() implies (#[trigger] bytes[i]) as int == 16 * nibble(
        text[2 * i],
    ) + nibble(text[2 * i + 1]) by {
        assert(text[2 * i] == hex_digit((bytes[i] / 16) as int));
        assert(text[2 * i + 1] == hex_digit((bytes[i] % 16) as int));
    }
}

/// A double is the number that was reported: a double itself, a whole number up
/// to where doubles hold them all, and zero where none was.
pub open spec fn is_number(d: Double, value: Option<NumberValue>) -> bool {
    match value {
        Some(NumberValue::AsDouble(x)) => d == x,
        Some(NumberValue::AsInt(n)) => d == crate::double::nearest(n as int) && (
        -0x20_0000_0000_0000 <= n <= 0x20_0000_0000_0000 ==> d.is_whole(n as int)),
        None => d.bits == 0,
    }
}

/// A double is the one that was reported, and zero where none was.
pub open spec fn is_reported(d: Double, value: Option<Double>) -> bool {
    match value {
        Some(x) => d == x,
        None => d.bits == 0,
    }
}

proof fn lemma_is_number(value: Option<NumberValue>)
    ensures
        is_number(number_of(value), value),
{
    if let Some(NumberValue::AsInt(n)) = value {
        if -0x20_0000_0000_0000 <= n <= 0x20_0000_0000_0000 {
            lemma_small_whole_numbers_are_exact(n as int);
        }
    }
}

/// An exemplar is the observation that was reported.
pub open spec fn is_sample(exemplar: ExemplarView, sample: SampledValue) -> bool {
    &&& exemplar.timestamp == sample.time_unix_nano
    &&& is_number(exemplar.value, sample.value)
    &&& is_hex_of(exemplar.trace_id, sample.trace_id@)
    &&& is_hex_of(exemplar.span_id, sample.span_id@)
    &&& are_attributes(exemplar.attributes, sample.filtered_attributes@)
}

/// Exemplars are the observations that were reported, one for one.
pub open spec fn are_samples(exemplars: Seq<ExemplarView>, samples: Seq<SampledValue>) -> bool {
    &&& exemplars.len() == samples.len()
    &&& forall|i: int| 0 <= i < samples.len() ==> is_sample(#[trigger] exemplars[i], samples[i])
}

proof fn lemma_are_samples(samples: Seq<SampledValue>)
    ensures
        are_samples(crate::otlp::convert::exemplars_of(samples), samples),
{
    let exemplars = crate::otlp::convert::exemplars_of(samples);
    assert forall|i: int| 0 <= i < samples.len() implies is_sample(
        #[trigger] exemplars[i],
        samples[i],
    ) by {
        let sample = samples[i];
        lemma_is_number(sample.value);
        lemma_hex_reads_back(sample.trace_id@);
        lemma_hex_reads_back(sample.span_id@);
        lemma_attributes_are_those_of_the_list(sample.filtered_attributes);
    }
}

/// Quantiles are those that were reported, one for one.
pub open spec fn are_quantiles(quantiles: Seq<Quantile>, values: Seq<ValueAtQuantile>) -> bool {
    &&& quantiles.len() == values.len()
    &&& forall|i: int|
        0 <= i < values.len() ==> (#[trigger] quantiles[i]).quantile == values[i].quantile
            && quantiles[i].value == values[i].value
}

/// The temporality is the one that OTLP numbers so: 1 is delta, 2 is cumulative,
/// and any other number is neither.
pub open spec fn is_temporality(temporality: Temporality, raw: i32) -> bool {
    &&& temporality is Delta <==> raw == 1
    &&& temporality is Cumulative <==> raw == 2
    &&& temporality is Unspecified <==> raw != 1 && raw != 2
}

/// One side of an exponential histogram is the one that was reported; without
/// buckets where none was.
pub open spec fn is_side(offset: i32, counts: Seq<u64>, side: Option<Buckets>) -> bool {
    match side {
        Some(buckets) => offset == buckets.offset && counts == buckets.bucket_counts@,
        None => offset == 0 && counts.len() == 0,
    }
}

/// An event carries a point of a gauge or a sum.
pub open spec fn carries_number(event: EventView, point: NumberDataPoint) -> bool {
    &&& event.timestamp == point.time_unix_nano
    &&& event.start_timestamp == point.start_time_unix_nano
    &&& are_attributes(event.attributes, point.attributes@)
    &&& is_number(event.value, point.value)
    &&& are_samples(event.exemplars, point.exemplars@)
    &&& event.flags == point.flags
}

/// An event carries a point of a histogram.
pub open spec fn carries_histogram(event: EventView, point: HistogramDataPoint) -> bool {
    &&& event.timestamp == point.time_unix_nano
    &&& event.start_timestamp == point.start_time_unix_nano
    &&& are_attributes(event.attributes, point.attributes@)
    &&& event.count == point.count
    &&& is_reported(event.sum, point.sum)
    &&& is_reported(event.min, point.min)
    &&& is_reported(event.max, point.max)
    &&& event.bucket_counts == point.bucket_counts@
    &&& event.explicit_bounds == point.explicit_bounds@
    &&& are_samples(event.exemplars, point.exemplars@)
    &&& event.flags == point.flags
}

/// An event carries a point of an exponential histogram.
pub open spec fn carries_exponential(
    event: EventView,
    point: ExponentialHistogramDataPoint,
) -> bool {
    &&& event.timestamp == point.time_unix_nano
    &&& event.start_timestamp == point.start_time_unix_nano
    &&& are_attributes(event.attributes, point.attributes@)
    &&& event.count == point.count
    &&& is_reported(event.sum, point.sum)
    &&& is_reported(event.min, point.min)
    &&& is_reported(event.max, point.max)
    &&& event.scale == point.scale
    &&& event.zero_count == point.zero_count
    &&& event.zero_threshold == point.zero_threshold
    &&& is_side(event.positive_offset, event.positive_bucket_counts, point.positive)
    &&& is_side(event.negative_offset, event.negative_bucket_counts, point.negative)
    &&& are_samples(event.exemplars, point.exemplars@)
    &&& event.flags == point.flags
}

/// An event carries a point of a summary.
pub open spec fn carries_summary(event: EventView, point: SummaryDataPoint) -> bool {
    &&& event.timestamp == point.time_unix_nano
    &&& event.start_timestamp == point.start_time_unix_nano
    &&& are_attributes(event.attributes, point.attributes@)
    &&& event.count == point.count
    &&& event.sum == point.sum
    &&& are_quantiles(event.quantiles, point.quantile_values@)
    &&& event.flags == point.flags
}

/// An event carries the point of some data that stands at a place, and says what
/// kind of metric it is of.
pub open spec fn carries_point(event: EventView, data: Option<Data>, at: int) -> bool {
    match data {
        Some(Data::Gauge(gauge)) => {
            &&& event.metric_type is Gauge
            &&& carries_number(event, gauge.data_points@[at])
        },
        Some(Data::Sum(sum)) => {
            &&& event.metric_type is Sum
            &&& is_temporality(event.temporality, sum.aggregation_temporality)
            &&& event.is_monotonic == sum.is_monotonic
            &&& carries_number(event, sum.data_points@[at])
        },
        Some(Data::Histogram(histogram)) => {
            &&& event.metric_type is Histogram
            &&& is_temporality(event.temporality, histogram.aggregation_temporality)
            &&& carries_histogram(event, histogram.data_points@[at])
        },
        Some(Data::ExponentialHistogram(histogram)) => {
            &&& event.metric_type is ExponentialHistogram
            &&& is_temporality(event.temporality, histogram.aggregation_temporality)
            &&& carries_exponential(event, histogram.data_points@[at])
        },
        Some(Data::Summary(summary)) => {
            &&& event.metric_type is Summary
            &&& carries_summary(event, summary.data_points@[at])
        },
        None => false,
    }
}

/// The event where a data point stands carries that point: its times, its
/// attributes, its numbers, its exemplars and its flags.
pub proof fn lemma_event_carries_its_point(
    request: ExportRequest,
    shared: Option<Entries>,
    resource: int,
    scope: int,
    metric: int,
    point: int,
)
    requires
        has_metric(request, resource, scope, metric),
        0 <= point < points_held(metric_at(request, resource, scope, metric).data),
    ensures
        carries_point(
            event_at(request, shared, resource, scope, metric, point),
            metric_at(request, resource, scope, metric).data,
            point,
        ),
{
    lemma_place(request, shared, resource, scope, metric, point);
    match metric_at(request, resource, scope, metric).data {
        Some(Data::Gauge(gauge)) => {
            let p = gauge.data_points@[point];
            lemma_attributes_are_those_of_the_list(p.attributes);
            lemma_is_number(p.value);
            lemma_are_samples(p.exemplars@);
        },
        Some(Data::Sum(sum)) => {
            let p = sum.data_points@[point];
            lemma_attributes_are_those_of_the_list(p.attributes);
            lemma_is_number(p.value);
            lemma_are_samples(p.exemplars@);
        },
        Some(Data::Histogram(histogram)) => {
            let p = histogram.data_points@[point];
            lemma_attributes_are_those_of_the_list(p.attributes);
            lemma_are_samples(p.exemplars@);
        },
        Some(Data::ExponentialHistogram(histogram)) => {
            let p = histogram.data_points@[point];
            lemma_attributes_are_those_of_the_list(p.attributes);
            lemma_are_samples(p.exemplars@);
        },
        Some(Data::Summary(summary)) => {
            let p = summary.data_points@[point];
            lemma_attributes_are_those_of_the_list(p.attributes);
        },
        None => {},
    }
}

/// The service of an event is the text that its resource has under
/// `service.name`, or `unknown_service` where that is missing, empty or no text.
pub open spec fn is_service(service: Seq<char>, resource: Entries) -> bool {
    let named = match value_at(resource, "service.name"@) {
        Some(JsonView::String(name)) => name.len() > 0,
        _ => false,
    };
    if named {
        value_at(resource, "service.name"@) == Some(JsonView::String(service))
    } else {
        service == "unknown_service"@
    }
}

/// The event where a data point stands carries what the levels above say: the
/// metric's name, unit and description, the scope's name and version, the
/// resource's attributes and service, and the columns that all events share.
pub proof fn lemma_event_carries_the_levels_above(
    request: ExportRequest,
    shared: Option<Entries>,
    resource: int,
    scope: int,
    metric: int,
    point: int,
)
    requires
        has_metric(request, resource, scope, metric),
        0 <= point < points_held(metric_at(request, resource, scope, metric).data),
    ensures
        ({
            let event = event_at(request, shared, resource, scope, metric, point);
            let described = metric_at(request, resource, scope, metric);
            let resources = request.resource_metrics@[resource];
            let scopes = resources.scope_metrics@[scope];
            &&& event.metric_name == described.name@
            &&& event.metric_unit == described.unit@
            &&& event.metric_description == described.description@
            &&& match scopes.scope {
                Some(library) => event.scope_name == library.name@ && event.scope_version
                    == library.version@,
                None => event.scope_name.len() == 0 && event.scope_version.len() == 0,
            }
            &&& match resources.resource {
                Some(observed) => are_attributes(event.resource_attributes, observed.attributes@),
                None => event.resource_attributes.len() == 0,
            }
            &&& is_service(event.service_name, event.resource_attributes)
            &&& event.shared == shared
            &&& event.fields.len() == 0
        }),
{
    lemma_place(request, shared, resource, scope, metric, point);
    let resources = request.resource_metrics@[resource];
    if let Some(observed) = resources.resource {
        lemma_attributes_are_those_of_the_list(observed.attributes);
    }
}

} // verus!
