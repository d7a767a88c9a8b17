//! Each column of a row holds the field of its event that it is named after.
use crate::double::Double;
use crate::event::row::{
    columns_of, compact_row, lemma_compact_row_lines_up, lemma_fixed_columns_are_in_order,
    named_row, FIXED_COLUMNS,
};
use crate::event::timestamp::{
    lemma_stamp_reads_back, moment_in, offset_in, wall_text,
};
use crate::event::{blank_event, EventView, MetricType, Temporality};
use crate::json::{has_key, value_at, Entries, JsonView, Number};
use crate::sink::schema::{fixed_names, lemma_fixed_names_differ};
use vstd::prelude::*;

verus! {

/// The place of the column of that name.
pub open spec fn place_of(columns: Entries, name: Seq<char>) -> int {
    choose|i: int| 0 <= i < columns.len() && (#[trigger] columns[i]).0 == name
}

/// The value of the column of that name.
pub open spec fn under(columns: Entries, name: Seq<char>) -> JsonView {
    columns[place_of(columns, name)].1
}

/// A double in JSON: the number itself, and null where it is not finite.
pub open spec fn writes_double(json: JsonView, d: Double) -> bool {
    if d.finite() {
        json == JsonView::Number(Number::Float(d))
    } else {
        json == JsonView::Null
    }
}

/// A whole number in JSON.
pub open spec fn writes_whole(json: JsonView, n: int) -> bool {
    match json {
        JsonView::Number(Number::PosInt(m)) => n >= 0 && m == n,
        JsonView::Number(Number::NegInt(m)) => n < 0 && m == n,
        _ => false,
    }
}

/// A moment in JSON: a text that names it in the zone, or in UTC where none is
/// given.
#[verifier::opaque]
pub open spec fn writes_moment(
    json: JsonView,
    nanos: u64,
    zone: Option<chrono_tz::Tz>,
) -> bool {
    match (json, zone) {
        (JsonView::String(text), Some(tz)) => text == wall_text(nanos, tz),
        (JsonView::String(text), None) => moment_in(text) == nanos && offset_in(text) == 0,
        _ => false,
    }
}

/// Counts in JSON, one for one.
pub open spec fn writes_counts(json: JsonView, counts: Seq<u64>) -> bool {
    &&& json is Array
    &&& json->Array_0.len() == counts.len()
    &&& forall|i: int|
        0 <= i < counts.len() ==> writes_whole(#[trigger] json->Array_0[i], counts[i] as int)
}

/// Doubles in JSON, one for one.
pub open spec fn writes_doubles(json: JsonView, numbers: Seq<Double>) -> bool {
    &&& json is Array
    &&& json->Array_0.len() == numbers.len()
    &&& forall|i: int|
        0 <= i < numbers.len() ==> writes_double(#[trigger] json->Array_0[i], numbers[i])
}

/// A kind in JSON: the word by which rows are asked for.
pub open spec fn writes_kind(json: JsonView, kind: MetricType) -> bool {
    match kind {
        MetricType::Gauge => json == JsonView::String("Gauge"@),
        MetricType::Sum => json == JsonView::String("Sum"@),
        MetricType::Histogram => json == JsonView::String("Histogram"@),
        MetricType::ExponentialHistogram => {
            json == JsonView::String("ExponentialHistogram"@)
        },
        MetricType::Summary => json == JsonView::String("Summary"@),
    }
}

/// A temporality in JSON: the word by which rows are asked for.
pub open spec fn writes_temporality(json: JsonView, temporality: Temporality) -> bool {
    match temporality {
        Temporality::Unspecified => json == JsonView::String("Unspecified"@),
        Temporality::Delta => json == JsonView::String("Delta"@),
        Temporality::Cumulative => json == JsonView::String("Cumulative"@),
    }
}

/// The names and the moments of an event stand under their own names.
pub open spec fn holds_names(
    columns: Entries,
    event: EventView,
    zone: Option<chrono_tz::Tz>,
) -> bool {
    &&& writes_moment(under(columns, "timestamp"@), event.timestamp, zone)
    &&& writes_moment(under(columns, "start_timestamp"@), event.start_timestamp, zone)
    &&& under(columns, "metric_name"@) == JsonView::String(event.metric_name)
    &&& writes_kind(under(columns, "metric_type"@), event.metric_type)
    &&& under(columns, "metric_unit"@) == JsonView::String(event.metric_unit)
    &&& under(columns, "metric_description"@) == JsonView::String(event.metric_description)
    &&& under(columns, "service_name"@) == JsonView::String(event.service_name)
    &&& under(columns, "scope_name"@) == JsonView::String(event.scope_name)
    &&& under(columns, "scope_version"@) == JsonView::String(event.scope_version)
    &&& under(columns, "resource_attributes"@) == JsonView::Object(event.resource_attributes)
    &&& under(columns, "attributes"@) == JsonView::Object(event.attributes)
}

/// The numbers of an event stand under their own names.
pub open spec fn holds_numbers(columns: Entries, event: EventView) -> bool {
    &&& writes_double(under(columns, "value"@), event.value)
    &&& writes_temporality(under(columns, "temporality"@), event.temporality)
    &&& writes_whole(
        under(columns, "is_monotonic"@),
        if event.is_monotonic {
            1
        } else {
            0
        },
    )
    &&& writes_whole(under(columns, "count"@), event.count as int)
    &&& writes_double(under(columns, "sum"@), event.sum)
    &&& writes_double(under(columns, "min"@), event.min)
    &&& writes_double(under(columns, "max"@), event.max)
    &&& writes_counts(under(columns, "bucket_counts"@), event.bucket_counts)
    &&& writes_doubles(under(columns, "explicit_bounds"@), event.explicit_bounds)
    &&& writes_whole(under(columns, "flags"@), event.flags as int)
}

/// What an exponential histogram has stands under its own names.
pub open spec fn holds_exponential(columns: Entries, event: EventView) -> bool {
    &&& writes_whole(under(columns, "scale"@), event.scale as int)
    &&& writes_whole(under(columns, "zero_count"@), event.zero_count as int)
    &&& writes_double(under(columns, "zero_threshold"@), event.zero_threshold)
    &&& writes_whole(under(columns, "positive_offset"@), event.positive_offset as int)
    &&& writes_counts(under(columns, "positive_bucket_counts"@), event.positive_bucket_counts)
    &&& writes_whole(under(columns, "negative_offset"@), event.negative_offset as int)
    &&& writes_counts(under(columns, "negative_bucket_counts"@), event.negative_bucket_counts)
}

/// A column has, for each quantile, one value.
pub open spec fn an_item_each(json: JsonView, n: nat) -> bool {
    json is Array && json->Array_0.len() == n
}

/// The parts of quantiles and exemplars stand under their own names, each in its
/// place.
pub open spec fn holds_nested(
    columns: Entries,
    event: EventView,
    zone: Option<chrono_tz::Tz>,
) -> bool {
    &&& an_item_each(under(columns, "quantiles.quantile"@), event.quantiles.len())
    &&& an_item_each(under(columns, "quantiles.value"@), event.quantiles.len())
    &&& forall|i: int|
        0 <= i < event.quantiles.len() ==> {
            let quantile = #[trigger] event.quantiles[i];
            &&& writes_double(
                under(columns, "quantiles.quantile"@)->Array_0[i],
                quantile.quantile,
            )
            &&& writes_double(under(columns, "quantiles.value"@)->Array_0[i], quantile.value)
        }
    &&& an_item_each(under(columns, "exemplars.timestamp"@), event.exemplars.len())
    &&& an_item_each(under(columns, "exemplars.value"@), event.exemplars.len())
    &&& an_item_each(under(columns, "exemplars.trace_id"@), event.exemplars.len())
    &&& an_item_each(under(columns, "exemplars.span_id"@), event.exemplars.len())
    &&& an_item_each(under(columns, "exemplars.attributes"@), event.exemplars.len())
    &&& forall|i: int|
        0 <= i < event.exemplars.len() ==> {
            let exemplar = #[trigger] event.exemplars[i];
            &&& writes_moment(
                under(columns, "exemplars.timestamp"@)->Array_0[i],
                exemplar.timestamp,
                zone,
            )
            &&& writes_double(under(columns, "exemplars.value"@)->Array_0[i], exemplar.value)
            &&& under(columns, "exemplars.trace_id"@)->Array_0[i] == JsonView::String(
                exemplar.trace_id,
            )
            &&& under(columns, "exemplars.span_id"@)->Array_0[i] == JsonView::String(
                exemplar.span_id,
            )
            &&& under(columns, "exemplars.attributes"@)->Array_0[i] == JsonView::Object(
                exemplar.attributes,
            )
        }
}

/// A column is found by its name.
proof fn lemma_under(event: EventView, zone: Option<chrono_tz::Tz>, at: int)
    requires
        0 <= at < 35,
    ensures
        under(columns_of(event, zone), FIXED_COLUMNS@[at]@) == columns_of(event, zone)[at].1,
{
    let columns = columns_of(event, zone);
    let name = FIXED_COLUMNS@[at]@;
    lemma_fixed_columns_are_in_order(event, zone);
    assert(columns[at].0 == name);
    let found = place_of(columns, name);
    assert(0 <= found < 35 && columns[found].0 == name);
    assert(columns[found].0 == FIXED_COLUMNS@[found]@);
    assert(fixed_names()[found] == fixed_names()[at]);
    if found < at {
        lemma_fixed_names_differ(found, at);
    } else if at < found {
        lemma_fixed_names_differ(at, found);
    }
}

/// In UTC a text names its moment.
proof fn lemma_utc_moment(nanos: u64, zone: Option<chrono_tz::Tz>)
    ensures
        writes_moment(crate::event::row::stamp_json(nanos, zone), nanos, zone),
{
    reveal(writes_moment);
    if zone is None {
        lemma_stamp_reads_back(nanos, 0);
    }
}

/// The names and the moments of an event are found under their names.
proof fn lemma_names_hold(event: EventView, zone: Option<chrono_tz::Tz>)
    ensures
        holds_names(columns_of(event, zone), event, zone),
{
    lemma_under(event, zone, 0);
    lemma_under(event, zone, 1);
    lemma_under(event, zone, 2);
    lemma_under(event, zone, 3);
    lemma_under(event, zone, 4);
    lemma_under(event, zone, 5);
    lemma_under(event, zone, 6);
    lemma_under(event, zone, 7);
    lemma_under(event, zone, 8);
    lemma_under(event, zone, 9);
    lemma_under(event, zone, 10);
    lemma_utc_moment(event.timestamp, zone);
    lemma_utc_moment(event.start_timestamp, zone);
}

/// The numbers of an event are found under their names.
proof fn lemma_numbers_hold(event: EventView, zone: Option<chrono_tz::Tz>)
    ensures
        holds_numbers(columns_of(event, zone), event),
{
    lemma_under(event, zone, 11);
    lemma_under(event, zone, 12);
    lemma_under(event, zone, 13);
    lemma_under(event, zone, 14);
    lemma_under(event, zone, 15);
    lemma_under(event, zone, 16);
    lemma_under(event, zone, 17);
    lemma_under(event, zone, 18);
    lemma_under(event, zone, 19);
    lemma_under(event, zone, 34);
}

/// What an exponential histogram has is found under its names.
proof fn lemma_exponential_holds(event: EventView, zone: Option<chrono_tz::Tz>)
    ensures
        holds_exponential(columns_of(event, zone), event),
{
    lemma_under(event, zone, 20);
    lemma_under(event, zone, 21);
    lemma_under(event, zone, 22);
    lemma_under(event, zone, 23);
    lemma_under(event, zone, 24);
    lemma_under(event, zone, 25);
    lemma_under(event, zone, 26);
}

/// The parts of quantiles and exemplars are found under their names.
proof fn lemma_nested_holds(event: EventView, zone: Option<chrono_tz::Tz>)
    ensures
        holds_nested(columns_of(event, zone), event, zone),
{
    lemma_under(event, zone, 27);
    lemma_under(event, zone, 28);
    lemma_under(event, zone, 29);
    lemma_under(event, zone, 30);
    lemma_under(event, zone, 31);
    lemma_under(event, zone, 32);
    lemma_under(event, zone, 33);
    assert forall|i: int| 0 <= i < event.exemplars.len() implies writes_moment(
        under(columns_of(event, zone), "exemplars.timestamp"@)->Array_0[i],
        (#[trigger] event.exemplars[i]).timestamp,
        zone,
    ) by {
        lemma_utc_moment(event.exemplars[i].timestamp, zone);
    }
}

/// Every fixed column of a row, with its columns named or not, holds the field of
/// the event that it is named after.
pub proof fn lemma_columns_hold_their_fields(
    event: EventView,
    zone: Option<chrono_tz::Tz>,
    extra: Seq<Seq<char>>,
)
    ensures
        ({
            let columns = named_row(event, zone).take(35);
            &&& holds_names(columns, event, zone)
            &&& holds_numbers(columns, event)
            &&& holds_exponential(columns, event)
            &&& holds_nested(columns, event, zone)
            &&& forall|i: int|
                0 <= i < 35 ==> #[trigger] compact_row(event, zone, extra)[i] == under(
                    columns,
                    FIXED_COLUMNS@[i]@,
                )
        }),
        columns_of(event, zone) == named_row(event, zone).take(35),
{
    let columns = named_row(event, zone).take(35);
    lemma_fixed_columns_are_in_order(event, zone);
    assert(columns =~= columns_of(event, zone));
    lemma_names_hold(event, zone);
    lemma_numbers_hold(event, zone);
    lemma_exponential_holds(event, zone);
    lemma_nested_holds(event, zone);
    assert forall|i: int| 0 <= i < 35 implies #[trigger] compact_row(event, zone, extra)[i]
        == under(columns, FIXED_COLUMNS@[i]@) by {
        lemma_under(event, zone, i);
    }
}

/// No two kinds have one name, nor do two temporalities.
pub proof fn lemma_names_tell_apart(
    kind: MetricType,
    other_kind: MetricType,
    temporality: Temporality,
    other_temporality: Temporality,
)
    ensures
        kind.name() == other_kind.name() ==> kind == other_kind,
        temporality.name() == other_temporality.name() ==> temporality == other_temporality,
{
    reveal_strlit("Gauge");
    reveal_strlit("Sum");
    reveal_strlit("Histogram");
    reveal_strlit("ExponentialHistogram");
    reveal_strlit("Summary");
    reveal_strlit("Unspecified");
    reveal_strlit("Delta");
    reveal_strlit("Cumulative");
    assert("Gauge"@.len() == 5 && "Sum"@.len() == 3 && "Histogram"@.len() == 9);
    assert("ExponentialHistogram"@.len() == 20 && "Summary"@.len() == 7);
    assert("Unspecified"@.len() == 11 && "Delta"@.len() == 5 && "Cumulative"@.len() == 10);
}

/// A further column is the event's own of that name, or else a shared one.
pub proof fn lemma_own_fields_first(event: EventView, key: Seq<char>)
    ensures
        has_key(event.fields, key) ==> event.extra(key) == value_at(event.fields, key),
        !has_key(event.fields, key) && event.shared is Some ==> event.extra(key) == value_at(
            event.shared->Some_0,
            key,
        ),
        !has_key(event.fields, key) && event.shared is None ==> event.extra(key) is None,
        has_key(event.attributes, key) ==> event.label(key) == value_at(event.attributes, key),
        !has_key(event.attributes, key) ==> event.label(key) == value_at(
            event.resource_attributes,
            key,
        ),
{
}

/// Behind the fixed columns, a compact row has one value for each name that is asked
/// for: the event's further column of that name, or null.
pub proof fn lemma_asked_for_columns(
    event: EventView,
    zone: Option<chrono_tz::Tz>,
    extra: Seq<Seq<char>>,
    i: int,
)
    requires
        0 <= i < extra.len(),
    ensures
        compact_row(event, zone, extra).len() == 35 + extra.len(),
        match event.extra(extra[i]) {
            Some(value) => compact_row(event, zone, extra)[35 + i] == value,
            None => compact_row(event, zone, extra)[35 + i] == JsonView::Null,
        },
{
    lemma_compact_row_lines_up(event, zone, extra);
    assert(compact_row(event, zone, extra)[35 + i] == compact_row(event, zone, extra)[35 + i]);
}

/// An event at its defaults says nothing: no names, no numbers but zeros, no items.
pub proof fn lemma_blank_event()
    ensures
        ({
            let event = blank_event();
            &&& event.timestamp == 0 && event.start_timestamp == 0
            &&& event.metric_name.len() == 0 && event.metric_unit.len() == 0
            &&& event.metric_description.len() == 0 && event.service_name.len() == 0
            &&& event.scope_name.len() == 0 && event.scope_version.len() == 0
            &&& event.resource_attributes.len() == 0 && event.attributes.len() == 0
            &&& event.metric_type is Gauge && event.temporality is Unspecified
            &&& !event.is_monotonic && event.count == 0 && event.flags == 0
            &&& event.value.bits == 0 && event.sum.bits == 0 && event.min.bits == 0
            &&& event.max.bits == 0 && event.zero_threshold.bits == 0
            &&& event.scale == 0 && event.zero_count == 0
            &&& event.positive_offset == 0 && event.negative_offset == 0
            &&& event.positive_bucket_counts.len() == 0 && event.negative_bucket_counts.len() == 0
            &&& event.bucket_counts.len() == 0 && event.explicit_bounds.len() == 0
            &&& event.quantiles.len() == 0 && event.exemplars.len() == 0
            &&& event.fields.len() == 0 && event.shared is None
        }),
{
}

} // verus!
