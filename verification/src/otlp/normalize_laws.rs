//! What holds of export requests once they have been made to fit the decoder.
use crate::count::total;
use crate::document::defaulted;
use crate::json::{
    has_key, int_number, lemma_put_ordered, lemma_removed_ordered, lemma_value_after_put,
    lemma_value_after_removed, lemma_value_replaced, ordered, put, rank, removed, value_at,
    well_formed, Entries, JsonView,
};
use crate::otlp::normalize::{
    as_int_read, buckets_read, common_read, data_points, data_read, exemplar_read, exemplars_read,
    exponential_defaults, lemma_kinds_differ, members, metric_points, metric_read, no_items,
    number_wrapped, point_read, points_in, points_read, quantile_read, quantiles_read,
    request_counts, request_read, resource_counts, resource_read, scope_counts, scope_read,
    text_json, with_members, zero_double, zero_int,
};
use crate::scan::i64_in;
use vstd::prelude::*;

verus! {

/// Filling in a field keeps the order and the other fields.
pub proof fn lemma_defaulted(entries: Entries, key: Seq<char>, value: JsonView)
    requires
        ordered(entries),
    ensures
        ordered(defaulted(entries, key, value)),
        forall|other: Seq<char>| #[trigger]
            has_key(defaulted(entries, key, value), other) <==> other == key || has_key(
                entries,
                other,
            ),
        forall|other: Seq<char>| #[trigger]
            value_at(defaulted(entries, key, value), other) == if other == key && !has_key(
                entries,
                key,
            ) {
                Some(value)
            } else {
                value_at(entries, other)
            },
{
    if !has_key(entries, key) {
        lemma_put(entries, key, value);
    }
}

/// Putting a field keeps the order and the other fields.
pub proof fn lemma_put(entries: Entries, key: Seq<char>, value: JsonView)
    requires
        ordered(entries),
    ensures
        ordered(put(entries, key, value)),
        forall|other: Seq<char>| #[trigger]
            has_key(put(entries, key, value), other) <==> other == key || has_key(entries, other),
        forall|other: Seq<char>| #[trigger]
            value_at(put(entries, key, value), other) == if other == key {
                Some(value)
            } else {
                value_at(entries, other)
            },
{
    let after = put(entries, key, value);
    lemma_put_ordered(entries, key, value);
    assert forall|other: Seq<char>| #[trigger]
        value_at(after, other) == if other == key {
            Some(value)
        } else {
            value_at(entries, other)
        } by {
        lemma_value_after_put(entries, key, value, other);
    }
    assert forall|other: Seq<char>| #[trigger]
        has_key(after, other) <==> other == key || has_key(entries, other) by {
        assert(has_key(after, other) == (value_at(after, other) is Some));
        assert(has_key(entries, other) == (value_at(entries, other) is Some));
    }
}

/// Taking a field away keeps the order and the other fields.
pub proof fn lemma_removed(entries: Entries, key: Seq<char>)
    requires
        ordered(entries),
    ensures
        ordered(removed(entries, key)),
        forall|other: Seq<char>| #[trigger]
            value_at(removed(entries, key), other) == if other == key {
                None
            } else {
                value_at(entries, other)
            },
{
    lemma_removed_ordered(entries, key);
    assert forall|other: Seq<char>| #[trigger]
        value_at(removed(entries, key), other) == if other == key {
            None
        } else {
            value_at(entries, other)
        } by {
        lemma_value_after_removed(entries, key, other);
    }
}

/// No data point is lost or made up when a request is made to fit the decoder.
pub proof fn lemma_points_are_kept(json: JsonView)
    ensures
        points_in(request_read(json)) == points_in(json),
{
    let key = "resourceMetrics"@;
    lemma_members_replaced(
        json,
        key,
        members(json, key).map_values(|resource: JsonView| resource_read(resource)),
    );
    assert forall|i: int| 0 <= i < members(json, key).len() implies total(
        resource_counts(resource_read(#[trigger] members(json, key)[i])),
    ) == total(resource_counts(members(json, key)[i])) by {
        lemma_resource_points_are_kept(members(json, key)[i]);
    }
    assert(request_counts(request_read(json)) =~= request_counts(json));
}

proof fn lemma_resource_points_are_kept(json: JsonView)
    ensures
        resource_counts(resource_read(json)) == resource_counts(json),
{
    let key = "scopeMetrics"@;
    lemma_members_replaced(
        json,
        key,
        members(json, key).map_values(|scope: JsonView| scope_read(scope)),
    );
    assert forall|i: int| 0 <= i < members(json, key).len() implies total(
        scope_counts(scope_read(#[trigger] members(json, key)[i])),
    ) == total(scope_counts(members(json, key)[i])) by {
        lemma_scope_points_are_kept(members(json, key)[i]);
    }
    assert(resource_counts(resource_read(json)) =~= resource_counts(json));
}

proof fn lemma_scope_points_are_kept(json: JsonView)
    ensures
        scope_counts(scope_read(json)) == scope_counts(json),
{
    let key = "metrics"@;
    lemma_members_replaced(
        json,
        key,
        members(json, key).map_values(|metric: JsonView| metric_read(metric)),
    );
    assert forall|i: int| 0 <= i < members(json, key).len() implies metric_points(
        metric_read(#[trigger] members(json, key)[i]),
    ) == metric_points(members(json, key)[i]) by {
        lemma_metric_points_are_kept(members(json, key)[i]);
    }
    assert(scope_counts(scope_read(json)) =~= scope_counts(json));
}

proof fn lemma_metric_points_are_kept(json: JsonView)
    ensures
        metric_points(metric_read(json)) == metric_points(json),
{
    let gauges = data_read(json, "gauge"@);
    let sums = data_read(gauges, "sum"@);
    let histograms = data_read(sums, "histogram"@);
    let exponentials = data_read(histograms, "exponentialHistogram"@);
    lemma_data_points_are_kept(json, "gauge"@);
    lemma_data_points_are_kept(gauges, "sum"@);
    lemma_data_points_are_kept(sums, "histogram"@);
    lemma_data_points_are_kept(histograms, "exponentialHistogram"@);
    lemma_data_points_are_kept(exponentials, "summary"@);
}

proof fn lemma_data_points_are_kept(json: JsonView, kind: Seq<char>)
    ensures
        forall|other: Seq<char>| #[trigger]
            data_points(data_read(json, kind), other) == data_points(json, other),
{
    if let JsonView::Object(entries) = json {
        if has_key(entries, kind) {
            let data = value_at(entries, kind)->Some_0;
            let points = points_read(members(data, "dataPoints"@), kind);
            let read = with_members(data, "dataPoints"@, points);
            lemma_members_replaced(data, "dataPoints"@, points);
            assert forall|other: Seq<char>| #[trigger]
                data_points(data_read(json, kind), other) == data_points(json, other) by {
                lemma_value_replaced(entries, kind, read, other);
            }
        }
    }
}

/// An array that takes the place of one of the same length is found there.
proof fn lemma_members_replaced(json: JsonView, key: Seq<char>, items: Seq<JsonView>)
    requires
        items.len() == members(json, key).len(),
    ensures
        members(with_members(json, key, items), key) == items,
{
    assert(items.len() == 0 ==> items =~= Seq::empty());
    if let JsonView::Object(entries) = json {
        if has_key(entries, key) {
            lemma_value_replaced(entries, key, JsonView::Array(items), key);
        }
    }
}

/// The number under `asInt`, read from a text where it is one.
pub open spec fn int_read(number: JsonView) -> JsonView {
    match number {
        JsonView::String(raw) => match i64_in(raw) {
            Some(n) => JsonView::Number(int_number(n)),
            None => number,
        },
        _ => number,
    }
}

/// Reading the number under `asInt` touches nothing else.
pub proof fn lemma_as_int_read(entries: Entries)
    requires
        ordered(entries),
    ensures
        ordered(as_int_read(entries)),
        forall|key: Seq<char>| #[trigger]
            value_at(as_int_read(entries), key) == match value_at(entries, key) {
                Some(number) if key == "asInt"@ => Some(int_read(number)),
                other => other,
            },
{
    if let Some(JsonView::String(raw)) = value_at(entries, "asInt"@) {
        if let Some(n) = i64_in(raw) {
            lemma_put(entries, "asInt"@, JsonView::Number(int_number(n)));
        }
    }
}

/// A whole number written as a text under `asInt` is read as that number, in a
/// data point of any kind.
pub proof fn lemma_as_int_of_a_point_is_read(entries: Entries, kind: Seq<char>)
    requires
        ordered(entries),
        has_key(entries, "asInt"@),
    ensures
        match point_read(JsonView::Object(entries), kind) {
            JsonView::Object(after) => value_at(after, "asInt"@) == Some(
                int_read(value_at(entries, "asInt"@)->Some_0),
            ),
            _ => false,
        },
{
    let number = int_read(value_at(entries, "asInt"@)->Some_0);
    reveal_strlit("asInt");
    assert("asInt"@.len() == 5);
    lemma_as_int_read(entries);
    let read = as_int_read(entries);
    let common = common_read(entries);
    reveal_strlit("exemplars");
    assert("exemplars"@.len() == 9);
    if let Some(JsonView::Array(items)) = value_at(read, "exemplars"@) {
        lemma_put(read, "exemplars"@, JsonView::Array(exemplars_read(items)));
    }
    assert(value_at(common, "asInt"@) == Some(number));
    assert(ordered(common));
    if kind == "exponentialHistogram"@ {
        let filled = exponential_defaults(common);
        lemma_exponential_defaults(common);
        assert(has_key(common, "asInt"@));
        assert(value_at(filled, "asInt"@) == value_at(common, "asInt"@));
        reveal_strlit("positive");
        assert("positive"@.len() == 8);
        reveal_strlit("negative");
        assert("negative"@.len() == 8);
        lemma_buckets_read(filled, "positive"@);
        lemma_buckets_read(buckets_read(filled, "positive"@), "negative"@);
    } else if kind == "summary"@ {
        reveal_strlit("quantileValues");
        assert("quantileValues"@.len() == 14);
        if let Some(JsonView::Array(items)) = value_at(common, "quantileValues"@) {
            lemma_put(common, "quantileValues"@, JsonView::Array(quantiles_read(items)));
        }
    }
}

/// Filling in the fields of a point of an exponential histogram leaves none
/// missing and changes none that is there.
pub proof fn lemma_exponential_defaults(entries: Entries)
    requires
        ordered(entries),
    ensures
        ordered(exponential_defaults(entries)),
        forall|key: Seq<char>|
            has_key(entries, key) ==> #[trigger] value_at(exponential_defaults(entries), key)
                == value_at(entries, key),
        forall|key: Seq<char>|
            (#[trigger] value_at(exponential_defaults(entries), key) is Some && value_at(
                exponential_defaults(entries),
                key,
            )->Some_0 is Object) ==> value_at(exponential_defaults(entries), key) == value_at(
                entries,
                key,
            ),
        forall|key: Seq<char>|
            !is_exponential_field(key) ==> #[trigger] value_at(exponential_defaults(entries), key)
                == value_at(entries, key),
        !has_key(entries, "exemplars"@) ==> value_at(
            exponential_defaults(entries),
            "exemplars"@,
        ) == Some(no_items()),
        exponential_complete(exponential_defaults(entries)),
{
    reveal_strlit("attributes");
    reveal_strlit("startTimeUnixNano");
    reveal_strlit("timeUnixNano");
    reveal_strlit("count");
    reveal_strlit("scale");
    reveal_strlit("zeroCount");
    reveal_strlit("zeroThreshold");
    reveal_strlit("flags");
    reveal_strlit("exemplars");
    assert("attributes"@.len() == 10 && "startTimeUnixNano"@.len() == 17 && "timeUnixNano"@.len()
        == 12 && "count"@.len() == 5 && "scale"@.len() == 5 && "zeroCount"@[0] == 'z'
        && "zeroThreshold"@.len() == 13 && "flags"@.len() == 5 && "exemplars"@.len() == 9
        && "exemplars"@[0] == 'e');
    let attributes = defaulted(entries, "attributes"@, no_items());
    lemma_defaulted(entries, "attributes"@, no_items());
    let start = defaulted(attributes, "startTimeUnixNano"@, text_json("0"@));
    lemma_defaulted(attributes, "startTimeUnixNano"@, text_json("0"@));
    let time = defaulted(start, "timeUnixNano"@, text_json("0"@));
    lemma_defaulted(start, "timeUnixNano"@, text_json("0"@));
    let count = defaulted(time, "count"@, text_json("0"@));
    lemma_defaulted(time, "count"@, text_json("0"@));
    let scale = defaulted(count, "scale"@, zero_int());
    lemma_defaulted(count, "scale"@, zero_int());
    let zero_count = defaulted(scale, "zeroCount"@, text_json("0"@));
    lemma_defaulted(scale, "zeroCount"@, text_json("0"@));
    let threshold = defaulted(zero_count, "zeroThreshold"@, zero_double());
    lemma_defaulted(zero_count, "zeroThreshold"@, zero_double());
    let flags = defaulted(threshold, "flags"@, zero_int());
    lemma_defaulted(threshold, "flags"@, zero_int());
    lemma_defaulted(flags, "exemplars"@, no_items());
}

/// A field that the decoder asks of a point of an exponential histogram.
pub open spec fn is_exponential_field(key: Seq<char>) -> bool {
    ||| key == "attributes"@
    ||| key == "startTimeUnixNano"@
    ||| key == "timeUnixNano"@
    ||| key == "count"@
    ||| key == "scale"@
    ||| key == "zeroCount"@
    ||| key == "zeroThreshold"@
    ||| key == "flags"@
    ||| key == "exemplars"@
}

/// Every field that the decoder asks of a point of an exponential histogram is
/// there.
pub open spec fn exponential_complete(entries: Entries) -> bool {
    &&& has_key(entries, "attributes"@)
    &&& has_key(entries, "startTimeUnixNano"@)
    &&& has_key(entries, "timeUnixNano"@)
    &&& has_key(entries, "count"@)
    &&& has_key(entries, "scale"@)
    &&& has_key(entries, "zeroCount"@)
    &&& has_key(entries, "zeroThreshold"@)
    &&& has_key(entries, "flags"@)
    &&& has_key(entries, "exemplars"@)
}

/// Every field that the decoder asks of the buckets on one side is there, where
/// that side is an object.
pub open spec fn buckets_complete(entries: Entries, side: Seq<char>) -> bool {
    match value_at(entries, side) {
        Some(JsonView::Object(buckets)) => has_key(buckets, "offset"@) && has_key(
            buckets,
            "bucketCounts"@,
        ),
        _ => true,
    }
}

/// Filling in one side touches nothing else.
proof fn lemma_buckets_read(entries: Entries, side: Seq<char>)
    requires
        ordered(entries),
    ensures
        ordered(buckets_read(entries, side)),
        forall|key: Seq<char>|
            key != side ==> #[trigger] value_at(buckets_read(entries, side), key) == value_at(
                entries,
                key,
            ),
        forall|key: Seq<char>| #[trigger]
            has_key(buckets_read(entries, side), key) == has_key(entries, key),
        match value_at(entries, side) {
            Some(JsonView::Object(buckets)) => ordered(buckets),
            _ => true,
        } ==> buckets_complete(buckets_read(entries, side), side),
{
    if let Some(JsonView::Object(buckets)) = value_at(entries, side) {
        let offset = defaulted(buckets, "offset"@, zero_int());
        let filled = defaulted(offset, "bucketCounts"@, no_items());
        if ordered(buckets) {
            lemma_defaulted(buckets, "offset"@, zero_int());
            lemma_defaulted(offset, "bucketCounts"@, no_items());
        }
        lemma_put(entries, side, JsonView::Object(filled));
    }
}

/// A point of an exponential histogram comes out with every field that the
/// decoder asks of it, and so do its buckets.
pub proof fn lemma_exponential_point_is_complete(entries: Entries)
    requires
        well_formed(JsonView::Object(entries)),
    ensures
        match point_read(JsonView::Object(entries), "exponentialHistogram"@) {
            JsonView::Object(after) => {
                &&& exponential_complete(after)
                &&& buckets_complete(after, "positive"@)
                &&& buckets_complete(after, "negative"@)
            },
            _ => false,
        },
{
    reveal_strlit("asInt");
    reveal_strlit("exemplars");
    reveal_strlit("positive");
    reveal_strlit("negative");
    assert("asInt"@.len() == 5);
    assert("exemplars"@.len() == 9);
    assert("positive"@.len() == 8 && "positive"@[0] == 'p');
    assert("negative"@.len() == 8 && "negative"@[0] == 'n');
    let common = common_read(entries);
    lemma_common_read(entries);
    lemma_exponential_defaults(common);
    let filled = exponential_defaults(common);
    let positive = buckets_read(filled, "positive"@);
    lemma_side(entries, "positive"@);
    lemma_side(entries, "negative"@);
    lemma_buckets_read(filled, "positive"@);
    lemma_buckets_read(positive, "negative"@);
    let after = buckets_read(positive, "negative"@);
    assert(value_at(after, "positive"@) == value_at(positive, "positive"@));
}

/// The buckets on one side still have their keys in order when they are filled
/// in.
proof fn lemma_side(entries: Entries, side: Seq<char>)
    requires
        well_formed(JsonView::Object(entries)),
        side != "asInt"@,
        side != "exemplars"@,
    ensures
        match value_at(exponential_defaults(common_read(entries)), side) {
            Some(JsonView::Object(buckets)) => ordered(buckets),
            _ => true,
        },
{
    lemma_common_read(entries);
    lemma_exponential_defaults(common_read(entries));
    if let Some(JsonView::Object(buckets)) = value_at(
        exponential_defaults(common_read(entries)),
        side,
    ) {
        assert(value_at(entries, side) == Some(JsonView::Object(buckets)));
        assert(well_formed(entries[rank(entries, side) as int].1));
    }
}

/// Reading what every kind of point has touches nothing but `asInt` and
/// `exemplars`.
proof fn lemma_common_read(entries: Entries)
    requires
        ordered(entries),
    ensures
        ordered(common_read(entries)),
        forall|key: Seq<char>|
            key != "asInt"@ && key != "exemplars"@ ==> #[trigger] value_at(
                common_read(entries),
                key,
            ) == value_at(entries, key),
{
    lemma_as_int_read(entries);
    let read = as_int_read(entries);
    if let Some(JsonView::Array(items)) = value_at(read, "exemplars"@) {
        lemma_put(read, "exemplars"@, JsonView::Array(exemplars_read(items)));
    }
}

/// A quantile comes out with both of its fields.
pub proof fn lemma_quantile_is_complete(entries: Entries)
    requires
        ordered(entries),
    ensures
        match quantile_read(JsonView::Object(entries)) {
            JsonView::Object(after) => has_key(after, "quantile"@) && has_key(after, "value"@),
            _ => false,
        },
{
    lemma_defaulted(entries, "quantile"@, zero_double());
    lemma_defaulted(
        defaulted(entries, "quantile"@, zero_double()),
        "value"@,
        zero_double(),
    );
}

/// The number of an exemplar, in the object that the decoder looks for it in:
/// what was under `value`, or else under `asDouble`, or else under `asInt`.
pub open spec fn exemplar_number(entries: Entries) -> Option<JsonView> {
    match value_at(entries, "value"@) {
        Some(value) => Some(value),
        None => match value_at(entries, "asDouble"@) {
            Some(number) => Some(JsonView::Object(seq![("asDouble"@, number)])),
            None => match value_at(entries, "asInt"@) {
                Some(number) => Some(JsonView::Object(seq![("asInt"@, int_read(number))])),
                None => None,
            },
        },
    }
}

/// An exemplar comes out with every field that the decoder asks of it, and with
/// its number under `value`.
pub proof fn lemma_exemplar_is_complete(entries: Entries)
    requires
        ordered(entries),
    ensures
        match exemplar_read(JsonView::Object(entries)) {
            JsonView::Object(after) => {
                &&& has_key(after, "filteredAttributes"@)
                &&& has_key(after, "timeUnixNano"@)
                &&& has_key(after, "spanId"@)
                &&& has_key(after, "traceId"@)
                &&& value_at(after, "value"@) == exemplar_number(entries)
            },
            _ => false,
        },
{
    reveal_strlit("asInt");
    reveal_strlit("asDouble");
    reveal_strlit("value");
    reveal_strlit("filteredAttributes");
    reveal_strlit("timeUnixNano");
    reveal_strlit("spanId");
    reveal_strlit("traceId");
    assert("asInt"@.len() == 5 && "asInt"@[0] == 'a');
    assert("asDouble"@.len() == 8);
    assert("value"@.len() == 5 && "value"@[0] == 'v');
    assert("filteredAttributes"@.len() == 18);
    assert("timeUnixNano"@.len() == 12);
    assert("spanId"@.len() == 6);
    assert("traceId"@.len() == 7);
    lemma_as_int_read(entries);
    let read = as_int_read(entries);
    let wrapped = number_wrapped(read);
    assert(has_key(read, "value"@) == (value_at(read, "value"@) is Some));
    if !has_key(read, "value"@) {
        if let Some(number) = value_at(read, "asDouble"@) {
            lemma_removed(read, "asDouble"@);
            lemma_put(
                removed(read, "asDouble"@),
                "value"@,
                JsonView::Object(seq![("asDouble"@, number)]),
            );
        } else if let Some(number) = value_at(read, "asInt"@) {
            lemma_removed(read, "asInt"@);
            lemma_put(
                removed(read, "asInt"@),
                "value"@,
                JsonView::Object(seq![("asInt"@, number)]),
            );
        }
    }
    assert(ordered(wrapped));
    assert(value_at(wrapped, "value"@) == exemplar_number(entries));
    let first = defaulted(wrapped, "filteredAttributes"@, no_items());
    lemma_defaulted(wrapped, "filteredAttributes"@, no_items());
    let second = defaulted(first, "timeUnixNano"@, text_json("0"@));
    lemma_defaulted(first, "timeUnixNano"@, text_json("0"@));
    let third = defaulted(second, "spanId"@, text_json(""@));
    lemma_defaulted(second, "spanId"@, text_json(""@));
    lemma_defaulted(third, "traceId"@, text_json(""@));
}

/// The data points of a metric under `kind`.
pub open spec fn points_under(metric: JsonView, kind: Seq<char>) -> Seq<JsonView> {
    match metric {
        JsonView::Object(entries) => match value_at(entries, kind) {
            Some(data) => members(data, "dataPoints"@),
            None => Seq::empty(),
        },
        _ => Seq::empty(),
    }
}

/// The metrics of a scope of a resource of a request.
pub open spec fn metrics_at(json: JsonView, resource: int, scope: int) -> Seq<JsonView> {
    members(
        members(members(json, "resourceMetrics"@)[resource], "scopeMetrics"@)[scope],
        "metrics"@,
    )
}

/// A name that data goes under.
pub open spec fn is_kind(kind: Seq<char>) -> bool {
    ||| kind == "gauge"@
    ||| kind == "sum"@
    ||| kind == "histogram"@
    ||| kind == "exponentialHistogram"@
    ||| kind == "summary"@
}

/// Reading the data under one kind reads its points and leaves the others.
proof fn lemma_points_under(metric: JsonView, kind: Seq<char>, other: Seq<char>)
    ensures
        points_under(data_read(metric, kind), other) == if other == kind {
            points_read(points_under(metric, kind), kind)
        } else {
            points_under(metric, other)
        },
{
    let none = Seq::<JsonView>::empty();
    assert(points_read(none, kind) =~= none);
    if let JsonView::Object(entries) = metric {
        if has_key(entries, kind) {
            let data = value_at(entries, kind)->Some_0;
            let points = points_read(members(data, "dataPoints"@), kind);
            lemma_members_replaced(data, "dataPoints"@, points);
            lemma_value_replaced(
                entries,
                kind,
                with_members(data, "dataPoints"@, points),
                other,
            );
        }
    }
}

/// A metric comes out with every one of its data points made to fit the decoder.
proof fn lemma_points_of_a_metric(metric: JsonView, kind: Seq<char>)
    requires
        is_kind(kind),
    ensures
        points_under(metric_read(metric), kind) == points_read(points_under(metric, kind), kind),
{
    let gauges = data_read(metric, "gauge"@);
    let sums = data_read(gauges, "sum"@);
    let histograms = data_read(sums, "histogram"@);
    let exponentials = data_read(histograms, "exponentialHistogram"@);
    lemma_kinds_differ();
    lemma_points_under(metric, "gauge"@, kind);
    lemma_points_under(gauges, "sum"@, kind);
    lemma_points_under(sums, "histogram"@, kind);
    lemma_points_under(histograms, "exponentialHistogram"@, kind);
    lemma_points_under(exponentials, "summary"@, kind);
}

/// Every data point of a request, wherever it stands, is made to fit the decoder,
/// and stays where it was.
pub proof fn lemma_every_point_is_read(
    json: JsonView,
    resource: int,
    scope: int,
    metric: int,
    kind: Seq<char>,
)
    requires
        is_kind(kind),
        0 <= resource < members(json, "resourceMetrics"@).len(),
        0 <= scope < members(
            members(json, "resourceMetrics"@)[resource],
            "scopeMetrics"@,
        ).len(),
        0 <= metric < metrics_at(json, resource, scope).len(),
    ensures
        points_under(metrics_at(request_read(json), resource, scope)[metric], kind) == points_read(
            points_under(metrics_at(json, resource, scope)[metric], kind),
            kind,
        ),
{
    let resources = members(json, "resourceMetrics"@);
    let resources_read = resources.map_values(|resource: JsonView| resource_read(resource));
    lemma_members_replaced(json, "resourceMetrics"@, resources_read);
    let scopes = members(resources[resource], "scopeMetrics"@);
    let scopes_read = scopes.map_values(|scope: JsonView| scope_read(scope));
    lemma_members_replaced(resources[resource], "scopeMetrics"@, scopes_read);
    let metrics = members(scopes[scope], "metrics"@);
    let metrics_read = metrics.map_values(|metric: JsonView| metric_read(metric));
    lemma_members_replaced(scopes[scope], "metrics"@, metrics_read);
    lemma_points_of_a_metric(metrics[metric], kind);
}

} // verus!
