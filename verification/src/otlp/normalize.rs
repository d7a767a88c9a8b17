//! Fills in what OTLP/JSON may leave out and the decoder of export requests
//! asks for.
//!
//! The decoder reads the data of a metric in a way that drops the whole metric,
//! without an error, as soon as anything below it does not fit. What is known
//! not to fit: whole numbers written as strings under `asInt`, fields with a
//! zero value that were left out, and the number of an exemplar, which the
//! decoder looks for one level further down.
use crate::count::{capped, lemma_total_next, total};
use crate::document::{
    all_contents, array_value, default_entry, defaulted, double_value, empty_map, entry_exists,
    entry_mut, entry_of, int_value, json_contents, map_contents, member_mut, object_value,
    put_entry, take_entry, text_value,
};
use crate::double::nearest;
use crate::json::{
    has_key, int_number, lemma_put_same, lemma_value_replaced, put, removed, value_at, Entries,
    JsonView, Number,
};
use crate::otlp::normalize_again::{keeps_point, lemma_point_again, lemma_point_is_kept};
use crate::scan::{i64_in, parse_i64};
use crate::text::{chars_of, same_text};
use vstd::prelude::*;

verus! {

/// The values of the array under `key`; none where there is no such array.
pub open spec fn members(json: JsonView, key: Seq<char>) -> Seq<JsonView> {
    match json {
        JsonView::Object(entries) => match value_at(entries, key) {
            Some(JsonView::Array(items)) => items,
            _ => Seq::empty(),
        },
        _ => Seq::empty(),
    }
}

/// The value with `items` in the array under `key`, where there is one.
pub open spec fn with_members(json: JsonView, key: Seq<char>, items: Seq<JsonView>) -> JsonView {
    match json {
        JsonView::Object(entries) => match value_at(entries, key) {
            Some(JsonView::Array(_)) => JsonView::Object(
                put(entries, key, JsonView::Array(items)),
            ),
            _ => json,
        },
        _ => json,
    }
}

/// The fields with a number in place of a text under `asInt`.
pub open spec fn as_int_read(entries: Entries) -> Entries {
    match value_at(entries, "asInt"@) {
        Some(JsonView::String(raw)) => match i64_in(raw) {
            Some(n) => put(entries, "asInt"@, JsonView::Number(int_number(n))),
            None => entries,
        },
        _ => entries,
    }
}

/// The fields with the number under `key` moved into an object under `value`.
pub open spec fn moved_to_value(
    entries: Entries,
    key: Seq<char>,
    number: JsonView,
) -> Entries {
    put(removed(entries, key), "value"@, JsonView::Object(seq![(key, number)]))
}

/// The fields of an exemplar with its number under `value`.
pub open spec fn number_wrapped(entries: Entries) -> Entries {
    if has_key(entries, "value"@) {
        entries
    } else {
        match value_at(entries, "asDouble"@) {
            Some(number) => moved_to_value(entries, "asDouble"@, number),
            None => match value_at(entries, "asInt"@) {
                Some(number) => moved_to_value(entries, "asInt"@, number),
                None => entries,
            },
        }
    }
}

/// A text.
pub open spec fn text_json(text: Seq<char>) -> JsonView {
    JsonView::String(text)
}

/// The number zero, without a fraction.
pub open spec fn zero_int() -> JsonView {
    JsonView::Number(int_number(0))
}

/// The number zero, as a double.
pub open spec fn zero_double() -> JsonView {
    JsonView::Number(Number::Float(nearest(0)))
}

/// An array of nothing.
pub open spec fn no_items() -> JsonView {
    JsonView::Array(Seq::empty())
}

/// The fields that the decoder asks of an exemplar, where they are missing.
pub open spec fn exemplar_defaults(entries: Entries) -> Entries {
    let entries = defaulted(entries, "filteredAttributes"@, no_items());
    let entries = defaulted(entries, "timeUnixNano"@, text_json("0"@));
    let entries = defaulted(entries, "spanId"@, text_json(""@));
    defaulted(entries, "traceId"@, text_json(""@))
}

/// An exemplar as the decoder takes it.
pub open spec fn exemplar_read(json: JsonView) -> JsonView {
    match json {
        JsonView::Object(entries) => JsonView::Object(
            exemplar_defaults(number_wrapped(as_int_read(entries))),
        ),
        _ => json,
    }
}

/// Exemplars as the decoder takes them.
pub open spec fn exemplars_read(items: Seq<JsonView>) -> Seq<JsonView> {
    items.map_values(|item: JsonView| exemplar_read(item))
}

/// One side of an exponential histogram, with the fields that the decoder asks
/// of it.
pub open spec fn buckets_read(entries: Entries, side: Seq<char>) -> Entries {
    match value_at(entries, side) {
        Some(JsonView::Object(buckets)) => {
            let buckets = defaulted(buckets, "offset"@, zero_int());
            let buckets = defaulted(buckets, "bucketCounts"@, no_items());
            put(entries, side, JsonView::Object(buckets))
        },
        _ => entries,
    }
}

/// The fields that the decoder asks of a point of an exponential histogram,
/// where they are missing.
pub open spec fn exponential_defaults(entries: Entries) -> Entries {
    let entries = defaulted(entries, "attributes"@, no_items());
    let entries = defaulted(entries, "startTimeUnixNano"@, text_json("0"@));
    let entries = defaulted(entries, "timeUnixNano"@, text_json("0"@));
    let entries = defaulted(entries, "count"@, text_json("0"@));
    let entries = defaulted(entries, "scale"@, zero_int());
    let entries = defaulted(entries, "zeroCount"@, text_json("0"@));
    let entries = defaulted(entries, "zeroThreshold"@, zero_double());
    let entries = defaulted(entries, "flags"@, zero_int());
    defaulted(entries, "exemplars"@, no_items())
}

/// The quantile of a summary, with the fields that the decoder asks of it.
pub open spec fn quantile_read(json: JsonView) -> JsonView {
    match json {
        JsonView::Object(entries) => {
            let entries = defaulted(entries, "quantile"@, zero_double());
            JsonView::Object(defaulted(entries, "value"@, zero_double()))
        },
        _ => json,
    }
}

/// The quantiles of a summary as the decoder takes them.
pub open spec fn quantiles_read(items: Seq<JsonView>) -> Seq<JsonView> {
    items.map_values(|item: JsonView| quantile_read(item))
}

/// The fields of a data point whose values are read one by one: the ones that
/// every kind of point has.
pub open spec fn common_read(entries: Entries) -> Entries {
    let entries = as_int_read(entries);
    match value_at(entries, "exemplars"@) {
        Some(JsonView::Array(items)) => put(
            entries,
            "exemplars"@,
            JsonView::Array(exemplars_read(items)),
        ),
        _ => entries,
    }
}

/// The fields of a point of an exponential histogram as the decoder takes them.
pub open spec fn exponential_read(entries: Entries) -> Entries {
    buckets_read(buckets_read(exponential_defaults(entries), "positive"@), "negative"@)
}

/// The fields of a point of a summary as the decoder takes them.
pub open spec fn summary_read(entries: Entries) -> Entries {
    match value_at(entries, "quantileValues"@) {
        Some(JsonView::Array(items)) => put(
            entries,
            "quantileValues"@,
            JsonView::Array(quantiles_read(items)),
        ),
        _ => entries,
    }
}

/// A data point under `kind` as the decoder takes it.
pub open spec fn point_read(json: JsonView, kind: Seq<char>) -> JsonView {
    match json {
        JsonView::Object(entries) => {
            let entries = common_read(entries);
            if kind == "exponentialHistogram"@ {
                JsonView::Object(exponential_read(entries))
            } else if kind == "summary"@ {
                JsonView::Object(summary_read(entries))
            } else {
                JsonView::Object(entries)
            }
        },
        _ => json,
    }
}

/// Data points under `kind` as the decoder takes them.
pub open spec fn points_read(items: Seq<JsonView>, kind: Seq<char>) -> Seq<JsonView> {
    items.map_values(|item: JsonView| point_read(item, kind))
}

/// The data of a metric under `kind` as the decoder takes it.
pub open spec fn data_read(json: JsonView, kind: Seq<char>) -> JsonView {
    match json {
        JsonView::Object(entries) => match value_at(entries, kind) {
            Some(data) => JsonView::Object(
                put(
                    entries,
                    kind,
                    with_members(
                        data,
                        "dataPoints"@,
                        points_read(members(data, "dataPoints"@), kind),
                    ),
                ),
            ),
            None => json,
        },
        _ => json,
    }
}

/// How many data points a metric has under `kind`.
pub open spec fn data_points(json: JsonView, kind: Seq<char>) -> nat {
    match json {
        JsonView::Object(entries) => match value_at(entries, kind) {
            Some(data) => members(data, "dataPoints"@).len(),
            None => 0,
        },
        _ => 0,
    }
}

/// A metric as the decoder takes it.
pub open spec fn metric_read(json: JsonView) -> JsonView {
    let json = data_read(json, "gauge"@);
    let json = data_read(json, "sum"@);
    let json = data_read(json, "histogram"@);
    let json = data_read(json, "exponentialHistogram"@);
    data_read(json, "summary"@)
}

/// How many data points a metric has.
pub open spec fn metric_points(json: JsonView) -> nat {
    data_points(json, "gauge"@) + data_points(json, "sum"@) + data_points(json, "histogram"@)
        + data_points(json, "exponentialHistogram"@) + data_points(json, "summary"@)
}

/// The metrics of a scope as the decoder takes them.
pub open spec fn scope_read(json: JsonView) -> JsonView {
    with_members(
        json,
        "metrics"@,
        members(json, "metrics"@).map_values(|metric: JsonView| metric_read(metric)),
    )
}

/// How many data points each metric of a scope has.
pub open spec fn scope_counts(json: JsonView) -> Seq<nat> {
    members(json, "metrics"@).map_values(|metric: JsonView| metric_points(metric))
}

/// The scopes of a resource as the decoder takes them.
pub open spec fn resource_read(json: JsonView) -> JsonView {
    with_members(
        json,
        "scopeMetrics"@,
        members(json, "scopeMetrics"@).map_values(|scope: JsonView| scope_read(scope)),
    )
}

/// How many data points each scope of a resource has.
pub open spec fn resource_counts(json: JsonView) -> Seq<nat> {
    members(json, "scopeMetrics"@).map_values(|scope: JsonView| total(scope_counts(scope)))
}

/// An export request as the decoder takes it.
pub open spec fn request_read(json: JsonView) -> JsonView {
    with_members(
        json,
        "resourceMetrics"@,
        members(json, "resourceMetrics"@).map_values(|resource: JsonView| resource_read(resource)),
    )
}

/// How many data points each resource of an export request has.
pub open spec fn request_counts(json: JsonView) -> Seq<nat> {
    members(json, "resourceMetrics"@).map_values(
        |resource: JsonView| total(resource_counts(resource)),
    )
}

/// How many data points an export request has.
pub open spec fn points_in(json: JsonView) -> nat {
    total(request_counts(json))
}

/// Reads the text under `asInt` as a number, where it is one.
fn unstring_as_int(map: &mut serde_json::Map<String, serde_json::Value>)
    ensures
        map_contents(*final(map)) == as_int_read(map_contents(*old(map))),
{
    let number: Option<i64> = match entry_of(map, "asInt") {
        Some(value) => match value.as_str() {
            Some(raw) => parse_i64(&chars_of(raw)),
            None => None,
        },
        None => None,
    };
    if let Some(n) = number {
        put_entry(map, "asInt".to_owned(), int_value(n));
    }
}

/// Moves the number under `key` into an object under `value`.
fn wrap_number(map: &mut serde_json::Map<String, serde_json::Value>, key: &str) -> (r: bool)
    ensures
        r == has_key(map_contents(*old(map)), key@),
        map_contents(*final(map)) == match value_at(map_contents(*old(map)), key@) {
            Some(number) => moved_to_value(map_contents(*old(map)), key@, number),
            None => map_contents(*old(map)),
        },
{
    match take_entry(map, key) {
        Some((name, number)) => {
            let mut wrapped = empty_map();
            put_entry(&mut wrapped, name, number);
            assert(map_contents(wrapped) =~= seq![(key@, json_contents(number))]);
            put_entry(map, "value".to_owned(), object_value(wrapped));
            true
        },
        None => false,
    }
}

/// Makes an exemplar fit the decoder.
fn normalize_exemplar(exemplar: &mut serde_json::Value)
    ensures
        json_contents(*final(exemplar)) == exemplar_read(json_contents(*old(exemplar))),
{
    if let Some(map) = exemplar.as_object_mut() {
        unstring_as_int(map);
        if !entry_exists(map, "value") {
            if !wrap_number(map, "asDouble") {
                wrap_number(map, "asInt");
            }
        }
        default_entry(map, "filteredAttributes", empty_array());
        default_entry(map, "timeUnixNano", text_value("0"));
        default_entry(map, "spanId", text_value(""));
        default_entry(map, "traceId", text_value(""));
    }
}

/// An array of nothing.
fn empty_array() -> (r: serde_json::Value)
    ensures
        json_contents(r) == no_items(),
{
    let items: Vec<serde_json::Value> = Vec::new();
    assert(all_contents(items@) =~= Seq::empty());
    array_value(items)
}

/// Makes exemplars fit the decoder.
fn normalize_exemplars(items: &mut Vec<serde_json::Value>)
    ensures
        all_contents(final(items)@) == exemplars_read(all_contents(old(items)@)),
{
    let mut i: usize = 0;
    while i < items.len()
        invariant
            i <= items@.len(),
            items@.len() == old(items)@.len(),
            forall|j: int|
                0 <= j < i ==> json_contents(#[trigger] items@[j]) == exemplar_read(
                    json_contents(old(items)@[j]),
                ),
            forall|j: int| i <= j < items@.len() ==> #[trigger] items@[j] == old(items)@[j],
        decreases items@.len() - i,
    {
        normalize_exemplar(&mut items[i]);
        i += 1;
    }
    assert(all_contents(items@) =~= exemplars_read(all_contents(old(items)@)));
}

/// Makes the quantiles of a summary fit the decoder.
fn normalize_quantiles(items: &mut Vec<serde_json::Value>)
    ensures
        all_contents(final(items)@) == quantiles_read(all_contents(old(items)@)),
{
    let mut i: usize = 0;
    while i < items.len()
        invariant
            i <= items@.len(),
            items@.len() == old(items)@.len(),
            forall|j: int|
                0 <= j < i ==> json_contents(#[trigger] items@[j]) == quantile_read(
                    json_contents(old(items)@[j]),
                ),
            forall|j: int| i <= j < items@.len() ==> #[trigger] items@[j] == old(items)@[j],
        decreases items@.len() - i,
    {
        normalize_quantile(&mut items[i]);
        i += 1;
    }
    assert(all_contents(items@) =~= quantiles_read(all_contents(old(items)@)));
}

/// Makes the quantile of a summary fit the decoder.
fn normalize_quantile(quantile: &mut serde_json::Value)
    ensures
        json_contents(*final(quantile)) == quantile_read(json_contents(*old(quantile))),
{
    if let Some(map) = quantile.as_object_mut() {
        default_entry(map, "quantile", double_value(0));
        default_entry(map, "value", double_value(0));
    }
}

/// Makes one side of an exponential histogram fit the decoder.
fn normalize_buckets(map: &mut serde_json::Map<String, serde_json::Value>, side: &str)
    ensures
        map_contents(*final(map)) == buckets_read(map_contents(*old(map)), side@),
{
    if let Some(value) = entry_mut(map, side) {
        if let Some(buckets) = value.as_object_mut() {
            default_entry(buckets, "offset", int_value(0));
            default_entry(buckets, "bucketCounts", empty_array());
        }
    }
}

/// Makes the fields that every kind of point has fit the decoder.
fn normalize_common(map: &mut serde_json::Map<String, serde_json::Value>)
    ensures
        map_contents(*final(map)) == common_read(map_contents(*old(map))),
{
    unstring_as_int(map);
    if let Some(value) = entry_mut(map, "exemplars") {
        if let Some(exemplars) = value.as_array_mut() {
            normalize_exemplars(exemplars);
        }
    }
}

/// Makes the fields of a point of an exponential histogram fit the decoder.
fn normalize_exponential(map: &mut serde_json::Map<String, serde_json::Value>)
    ensures
        map_contents(*final(map)) == exponential_read(map_contents(*old(map))),
{
    default_entry(map, "attributes", empty_array());
    default_entry(map, "startTimeUnixNano", text_value("0"));
    default_entry(map, "timeUnixNano", text_value("0"));
    default_entry(map, "count", text_value("0"));
    default_entry(map, "scale", int_value(0));
    default_entry(map, "zeroCount", text_value("0"));
    default_entry(map, "zeroThreshold", double_value(0));
    default_entry(map, "flags", int_value(0));
    default_entry(map, "exemplars", empty_array());
    normalize_buckets(map, "positive");
    normalize_buckets(map, "negative");
}

/// Makes the fields of a point of a summary fit the decoder.
fn normalize_summary(map: &mut serde_json::Map<String, serde_json::Value>)
    ensures
        map_contents(*final(map)) == summary_read(map_contents(*old(map))),
{
    if let Some(value) = entry_mut(map, "quantileValues") {
        if let Some(quantiles) = value.as_array_mut() {
            normalize_quantiles(quantiles);
        }
    }
}

/// Makes a data point under `kind` fit the decoder. What it has stays, but for
/// what has to be read or filled in, and doing it again changes nothing.
pub fn normalize_point(point: &mut serde_json::Value, kind: &str)
    ensures
        json_contents(*final(point)) == point_read(json_contents(*old(point)), kind@),
        point_read(json_contents(*final(point)), kind@) == json_contents(*final(point)),
        keeps_point(json_contents(*old(point)), json_contents(*final(point)), kind@),
{
    let ghost before = json_contents(*point);
    if let Some(map) = point.as_object_mut() {
        proof {
            lemma_point_again(before, kind@);
            lemma_point_is_kept(before, kind@);
        }
        normalize_common(map);
        if same_text(kind, "exponentialHistogram") {
            normalize_exponential(map);
        } else if same_text(kind, "summary") {
            normalize_summary(map);
        }
    }
}

/// The values of the array under `key`, open to change.
fn array_mut<'a>(value: &'a mut serde_json::Value, key: &str) -> (r: Option<
    &'a mut Vec<serde_json::Value>,
>)
    ensures
        match r {
            Some(items) => {
                &&& members(json_contents(*old(value)), key@) == all_contents((*items)@)
                &&& json_contents(*final(value)) == with_members(
                    json_contents(*old(value)),
                    key@,
                    all_contents((*final(items))@),
                )
            },
            None => {
                &&& members(json_contents(*old(value)), key@) == Seq::<JsonView>::empty()
                &&& json_contents(*final(value)) == json_contents(*old(value))
                &&& forall|items: Seq<JsonView>|
                    #[trigger] with_members(json_contents(*old(value)), key@, items)
                        == json_contents(*old(value))
            },
        },
{
    match member_mut(value, key) {
        Some(member) => {
            proof {
                lemma_put_same(
                    json_contents(*old(value))->Object_0,
                    key@,
                    json_contents(*member),
                );
            }
            member.as_array_mut()
        },
        None => None,
    }
}

/// Makes data points under `kind` fit the decoder.
fn normalize_points(items: &mut Vec<serde_json::Value>, kind: &str)
    ensures
        all_contents(final(items)@) == points_read(all_contents(old(items)@), kind@),
{
    let mut i: usize = 0;
    while i < items.len()
        invariant
            i <= items@.len(),
            items@.len() == old(items)@.len(),
            forall|j: int|
                0 <= j < i ==> json_contents(#[trigger] items@[j]) == point_read(
                    json_contents(old(items)@[j]),
                    kind@,
                ),
            forall|j: int| i <= j < items@.len() ==> #[trigger] items@[j] == old(items)@[j],
        decreases items@.len() - i,
    {
        normalize_point(&mut items[i], kind);
        i += 1;
    }
    assert(all_contents(items@) =~= points_read(all_contents(old(items)@), kind@));
}

/// Makes the data of a metric under `kind` fit the decoder and counts its
/// points.
fn normalize_data(metric: &mut serde_json::Value, kind: &str) -> (r: usize)
    ensures
        json_contents(*final(metric)) == data_read(json_contents(*old(metric)), kind@),
        r == data_points(json_contents(*old(metric)), kind@),
{
    match member_mut(metric, kind) {
        Some(data) => match array_mut(data, "dataPoints") {
            Some(points) => {
                let count: usize = points.len();
                normalize_points(points, kind);
                count
            },
            None => 0,
        },
        None => 0,
    }
}

/// The data under one kind does not bear on the data under another.
proof fn lemma_other_kind(json: JsonView, kind: Seq<char>, other: Seq<char>)
    requires
        kind != other,
    ensures
        data_points(data_read(json, kind), other) == data_points(json, other),
{
    if let JsonView::Object(entries) = json {
        if let Some(data) = value_at(entries, kind) {
            let read = with_members(
                data,
                "dataPoints"@,
                points_read(members(data, "dataPoints"@), kind),
            );
            lemma_value_replaced(entries, kind, read, other);
        }
    }
}

/// The names that data goes under are all different.
pub proof fn lemma_kinds_differ()
    ensures
        "gauge"@ != "sum"@,
        "gauge"@ != "histogram"@,
        "gauge"@ != "exponentialHistogram"@,
        "gauge"@ != "summary"@,
        "sum"@ != "histogram"@,
        "sum"@ != "exponentialHistogram"@,
        "sum"@ != "summary"@,
        "histogram"@ != "exponentialHistogram"@,
        "histogram"@ != "summary"@,
        "exponentialHistogram"@ != "summary"@,
{
    reveal_strlit("gauge");
    reveal_strlit("sum");
    reveal_strlit("histogram");
    reveal_strlit("exponentialHistogram");
    reveal_strlit("summary");
    assert("gauge"@.len() == 5);
    assert("sum"@.len() == 3);
    assert("histogram"@.len() == 9);
    assert("exponentialHistogram"@.len() == 20);
    assert("summary"@.len() == 7);
}

/// Makes a metric fit the decoder and counts its data points.
fn normalize_metric(metric: &mut serde_json::Value) -> (r: usize)
    ensures
        json_contents(*final(metric)) == metric_read(json_contents(*old(metric))),
        r == capped(metric_points(json_contents(*old(metric)))),
{
    let ghost json = json_contents(*metric);
    let gauges: usize = normalize_data(metric, "gauge");
    let sums: usize = normalize_data(metric, "sum");
    let histograms: usize = normalize_data(metric, "histogram");
    let exponentials: usize = normalize_data(metric, "exponentialHistogram");
    let summaries: usize = normalize_data(metric, "summary");
    proof {
        
        let gauges = data_read(json, "gauge"@);
        let sums = data_read(gauges, "sum"@);
        let histograms = data_read(sums, "histogram"@);
        lemma_kinds_differ();
        lemma_other_kind(json, "gauge"@, "sum"@);
        lemma_other_kind(json, "gauge"@, "histogram"@);
        lemma_other_kind(json, "gauge"@, "exponentialHistogram"@);
        lemma_other_kind(json, "gauge"@, "summary"@);
        lemma_other_kind(gauges, "sum"@, "histogram"@);
        lemma_other_kind(gauges, "sum"@, "exponentialHistogram"@);
        lemma_other_kind(gauges, "sum"@, "summary"@);
        lemma_other_kind(sums, "histogram"@, "exponentialHistogram"@);
        lemma_other_kind(sums, "histogram"@, "summary"@);
        lemma_other_kind(histograms, "exponentialHistogram"@, "summary"@);
    }
    gauges.saturating_add(sums).saturating_add(histograms).saturating_add(
        exponentials,
    ).saturating_add(summaries)
}

/// Makes the metrics of a scope fit the decoder and counts their data points.
fn normalize_scope(scope: &mut serde_json::Value) -> (r: usize)
    ensures
        json_contents(*final(scope)) == scope_read(json_contents(*old(scope))),
        r == capped(total(scope_counts(json_contents(*old(scope))))),
{
    let ghost counts = scope_counts(json_contents(*scope));
    let ghost before = members(json_contents(*scope), "metrics"@);
    let mut points: usize = 0;
    match array_mut(scope, "metrics") {
        Some(items) => {
            let mut i: usize = 0;
            while i < items.len()
                invariant
                    i <= items@.len(),
                    items@.len() == before.len(),
                    counts == before.map_values(|metric: JsonView| metric_points(metric)),
                    points == capped(total(counts.take(i as int))),
                    forall|j: int|
                        0 <= j < i ==> json_contents(#[trigger] items@[j]) == metric_read(
                            before[j],
                        ),
                    forall|j: int|
                        i <= j < items@.len() ==> json_contents(#[trigger] items@[j]) == before[j],
                decreases items@.len() - i,
            {
                proof {
                    lemma_total_next(counts, i as int);
                }
                points = points.saturating_add(normalize_metric(&mut items[i]));
                i += 1;
            }
            assert(counts.take(i as int) =~= counts);
            assert(all_contents(items@) =~= before.map_values(
                |metric: JsonView| metric_read(metric),
            ));
        },
        None => {},
    }
    points
}

/// Makes the scopes of a resource fit the decoder and counts their data points.
fn normalize_resource(resource: &mut serde_json::Value) -> (r: usize)
    ensures
        json_contents(*final(resource)) == resource_read(json_contents(*old(resource))),
        r == capped(total(resource_counts(json_contents(*old(resource))))),
{
    let ghost counts = resource_counts(json_contents(*resource));
    let ghost before = members(json_contents(*resource), "scopeMetrics"@);
    let mut points: usize = 0;
    match array_mut(resource, "scopeMetrics") {
        Some(items) => {
            let mut i: usize = 0;
            while i < items.len()
                invariant
                    i <= items@.len(),
                    items@.len() == before.len(),
                    counts == before.map_values(|scope: JsonView| total(scope_counts(scope))),
                    points == capped(total(counts.take(i as int))),
                    forall|j: int|
                        0 <= j < i ==> json_contents(#[trigger] items@[j]) == scope_read(
                            before[j],
                        ),
                    forall|j: int|
                        i <= j < items@.len() ==> json_contents(#[trigger] items@[j]) == before[j],
                decreases items@.len() - i,
            {
                proof {
                    lemma_total_next(counts, i as int);
                }
                points = points.saturating_add(normalize_scope(&mut items[i]));
                i += 1;
            }
            assert(counts.take(i as int) =~= counts);
            assert(all_contents(items@) =~= before.map_values(
                |scope: JsonView| scope_read(scope),
            ));
        },
        None => {},
    }
    points
}

/// Makes an export request fit the decoder and counts its data points.
pub fn normalize(request: &mut serde_json::Value) -> (r: usize)
    ensures
        json_contents(*final(request)) == request_read(json_contents(*old(request))),
        r == capped(points_in(json_contents(*old(request)))),
{
    let ghost counts = request_counts(json_contents(*request));
    let ghost before = members(json_contents(*request), "resourceMetrics"@);
    let mut points: usize = 0;
    match array_mut(request, "resourceMetrics") {
        Some(items) => {
            let mut i: usize = 0;
            while i < items.len()
                invariant
                    i <= items@.len(),
                    items@.len() == before.len(),
                    counts == before.map_values(
                        |resource: JsonView| total(resource_counts(resource)),
                    ),
                    points == capped(total(counts.take(i as int))),
                    forall|j: int|
                        0 <= j < i ==> json_contents(#[trigger] items@[j]) == resource_read(
                            before[j],
                        ),
                    forall|j: int|
                        i <= j < items@.len() ==> json_contents(#[trigger] items@[j]) == before[j],
                decreases items@.len() - i,
            {
                proof {
                    lemma_total_next(counts, i as int);
                }
                points = points.saturating_add(normalize_resource(&mut items[i]));
                i += 1;
            }
            assert(counts.take(i as int) =~= counts);
            assert(all_contents(items@) =~= before.map_values(
                |resource: JsonView| resource_read(resource),
            ));
        },
        None => {},
    }
    points
}

} // verus!
