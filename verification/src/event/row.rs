//! Events as rows of a table.
use crate::double::Double;
use crate::event::timestamp::{format_timestamp, stamp_text, utc, zone_offset};
use crate::event::{exemplar_views, EventView, Exemplar, ExemplarView, MetricEvent, Quantile};
use crate::json::{
    double_json, has_key, int_number, lemma_array_view, lemma_found, ordered, rank, views,
    Entries, Json, JsonMap, JsonView, Number,
};
use crate::text::texts;
use vstd::prelude::*;

verus! {

/// The names of the columns that every event has, in the order in which they
/// are written. A compact row has no names, so the table has its columns in
/// this order too.
pub const FIXED_COLUMNS: [&'static str; 35] = [
    "timestamp",
    "start_timestamp",
    "metric_name",
    "metric_type",
    "metric_unit",
    "metric_description",
    "service_name",
    "scope_name",
    "scope_version",
    "resource_attributes",
    "attributes",
    "value",
    "temporality",
    "is_monotonic",
    "count",
    "sum",
    "min",
    "max",
    "bucket_counts",
    "explicit_bounds",
    "scale",
    "zero_count",
    "zero_threshold",
    "positive_offset",
    "positive_bucket_counts",
    "negative_offset",
    "negative_bucket_counts",
    "quantiles.quantile",
    "quantiles.value",
    "exemplars.timestamp",
    "exemplars.value",
    "exemplars.trace_id",
    "exemplars.span_id",
    "exemplars.attributes",
    "flags",
];

/// How many seconds the clocks of a zone are ahead of UTC; not at all where no
/// zone is given.
pub open spec fn offset_at(zone: Option<chrono_tz::Tz>, secs: int) -> int {
    match zone {
        Some(tz) => zone_offset(tz, secs),
        None => 0,
    }
}

/// A moment as a JSON text, in the wall-clock time of a zone.
pub open spec fn stamp_json(nanos: u64, zone: Option<chrono_tz::Tz>) -> JsonView {
    JsonView::String(stamp_text(nanos as nat, offset_at(zone, nanos as int / 1_000_000_000)))
}

/// A count as JSON.
pub open spec fn count_json(n: u64) -> JsonView {
    JsonView::Number(Number::PosInt(n))
}

/// Counts as a JSON array.
pub open spec fn counts_json(counts: Seq<u64>) -> JsonView {
    JsonView::Array(counts.map_values(|n: u64| count_json(n)))
}

/// Doubles as a JSON array.
pub open spec fn doubles_json(numbers: Seq<Double>) -> JsonView {
    JsonView::Array(numbers.map_values(|d: Double| double_json(d)))
}

/// When and what: the moments and the names.
pub open spec fn name_columns(event: EventView, zone: Option<chrono_tz::Tz>) -> Entries {
    seq![
        ("timestamp"@, stamp_json(event.timestamp, zone)),
        ("start_timestamp"@, stamp_json(event.start_timestamp, zone)),
        ("metric_name"@, JsonView::String(event.metric_name)),
        ("metric_type"@, JsonView::String(event.metric_type.name())),
        ("metric_unit"@, JsonView::String(event.metric_unit)),
        ("metric_description"@, JsonView::String(event.metric_description)),
        ("service_name"@, JsonView::String(event.service_name)),
        ("scope_name"@, JsonView::String(event.scope_name)),
        ("scope_version"@, JsonView::String(event.scope_version)),
        ("resource_attributes"@, JsonView::Object(event.resource_attributes)),
        ("attributes"@, JsonView::Object(event.attributes)),
    ]
}

/// The numbers of a gauge, a sum or a histogram.
pub open spec fn number_columns(event: EventView) -> Entries {
    seq![
        ("value"@, double_json(event.value)),
        ("temporality"@, JsonView::String(event.temporality.name())),
        (
            "is_monotonic"@,
            count_json(
                if event.is_monotonic {
                    1
                } else {
                    0
                },
            ),
        ),
        ("count"@, count_json(event.count)),
        ("sum"@, double_json(event.sum)),
        ("min"@, double_json(event.min)),
        ("max"@, double_json(event.max)),
        ("bucket_counts"@, counts_json(event.bucket_counts)),
        ("explicit_bounds"@, doubles_json(event.explicit_bounds)),
    ]
}

/// What an exponential histogram has beyond these.
pub open spec fn exponential_columns(event: EventView) -> Entries {
    seq![
        ("scale"@, JsonView::Number(int_number(event.scale as i64))),
        ("zero_count"@, count_json(event.zero_count)),
        ("zero_threshold"@, double_json(event.zero_threshold)),
        ("positive_offset"@, JsonView::Number(int_number(event.positive_offset as i64))),
        ("positive_bucket_counts"@, counts_json(event.positive_bucket_counts)),
        ("negative_offset"@, JsonView::Number(int_number(event.negative_offset as i64))),
        ("negative_bucket_counts"@, counts_json(event.negative_bucket_counts)),
    ]
}

/// Quantiles and exemplars, each as arrays of the same length side by side, and
/// the flags.
pub open spec fn nested_columns(event: EventView, zone: Option<chrono_tz::Tz>) -> Entries {
    seq![
        (
            "quantiles.quantile"@,
            JsonView::Array(event.quantiles.map_values(|q: Quantile| double_json(q.quantile))),
        ),
        (
            "quantiles.value"@,
            JsonView::Array(event.quantiles.map_values(|q: Quantile| double_json(q.value))),
        ),
        (
            "exemplars.timestamp"@,
            JsonView::Array(
                event.exemplars.map_values(|e: ExemplarView| stamp_json(e.timestamp, zone)),
            ),
        ),
        (
            "exemplars.value"@,
            JsonView::Array(event.exemplars.map_values(|e: ExemplarView| double_json(e.value))),
        ),
        (
            "exemplars.trace_id"@,
            JsonView::Array(
                event.exemplars.map_values(|e: ExemplarView| JsonView::String(e.trace_id)),
            ),
        ),
        (
            "exemplars.span_id"@,
            JsonView::Array(
                event.exemplars.map_values(|e: ExemplarView| JsonView::String(e.span_id)),
            ),
        ),
        (
            "exemplars.attributes"@,
            JsonView::Array(
                event.exemplars.map_values(|e: ExemplarView| JsonView::Object(e.attributes)),
            ),
        ),
        ("flags"@, count_json(event.flags as u64)),
    ]
}

/// The columns that every event has, moments in the wall-clock time of a zone, or
/// in UTC where none is given.
pub open spec fn columns_of(event: EventView, zone: Option<chrono_tz::Tz>) -> Entries {
    name_columns(event, zone) + number_columns(event) + exponential_columns(event) + nested_columns(
        event,
        zone,
    )
}

/// What columns say.
pub open spec fn column_views(columns: Seq<(String, Json)>) -> Entries {
    columns.map_values(|column: (String, Json)| (column.0@, column.1@))
}

/// The shared columns that no field of the event takes the place of.
pub open spec fn unshadowed(shared: Entries, fields: Entries) -> Entries
    decreases shared.len(),
{
    if shared.len() == 0 {
        Seq::empty()
    } else {
        let before = unshadowed(shared.drop_last(), fields);
        if has_key(fields, shared.last().0) {
            before
        } else {
            before.push(shared.last())
        }
    }
}

/// A row with its columns named: the fixed ones, the shared ones, the event's
/// own.
pub open spec fn named_row(event: EventView, zone: Option<chrono_tz::Tz>) -> Entries {
    columns_of(event, zone) + match event.shared {
        Some(shared) => unshadowed(shared, event.fields),
        None => Seq::empty(),
    } + event.fields
}

/// Behind the fixed columns, a row has each further column of the event under
/// its name, a field in the place of a shared one of that name, and nothing
/// else.
pub open spec fn has_further_columns(row: Entries, event: EventView) -> bool {
    forall|column: (Seq<char>, JsonView)| #[trigger]
        row.skip(35).contains(column) <==> event.extra(column.0) == Some(column.1)
}

/// The further column of that name, or null.
pub open spec fn extra_or_null(event: EventView, name: Seq<char>) -> JsonView {
    match event.extra(name) {
        Some(value) => value,
        None => JsonView::Null,
    }
}

/// A row of values alone: the fixed columns, and then the further ones asked
/// for.
pub open spec fn compact_row(
    event: EventView,
    zone: Option<chrono_tz::Tz>,
    extra: Seq<Seq<char>>,
) -> Seq<JsonView> {
    columns_of(event, zone).map_values(|column: (Seq<char>, JsonView)| column.1) + extra.map_values(
        |name: Seq<char>| extra_or_null(event, name),
    )
}

/// A column.
fn column(name: &str, value: Json) -> (r: (String, Json))
    ensures
        r.0@ == name@,
        r.1@ == value@,
{
    (name.to_owned(), value)
}

/// A moment as a JSON text.
fn stamp(nanos: u64, tz: chrono_tz::Tz) -> (r: Json)
    ensures
        r@ == stamp_json(nanos, Some(tz)),
{
    Json::from_text(format_timestamp(nanos, tz).as_str())
}

/// Counts as a JSON array.
fn counts(list: &Vec<u64>) -> (r: Json)
    ensures
        r@ == counts_json(list@),
{
    broadcast use lemma_array_view;

    let mut items: Vec<Json> = Vec::new();
    let mut i: usize = 0;
    while i < list.len()
        invariant
            i <= list@.len(),
            items@.len() == i,
            forall|j: int| 0 <= j < i ==> (#[trigger] items@[j])@ == count_json(list@[j]),
        decreases list@.len() - i,
    {
        items.push(Json::from_u64(list[i]));
        i += 1;
    }
    assert(views(items@) =~= list@.map_values(|n: u64| count_json(n)));
    Json::Array(items)
}

/// Doubles as a JSON array.
fn doubles(list: &Vec<Double>) -> (r: Json)
    ensures
        r@ == doubles_json(list@),
{
    broadcast use lemma_array_view;

    let mut items: Vec<Json> = Vec::new();
    let mut i: usize = 0;
    while i < list.len()
        invariant
            i <= list@.len(),
            items@.len() == i,
            forall|j: int| 0 <= j < i ==> (#[trigger] items@[j])@ == double_json(list@[j]),
        decreases list@.len() - i,
    {
        items.push(Json::from_double(list[i]));
        i += 1;
    }
    assert(views(items@) =~= list@.map_values(|d: Double| double_json(d)));
    Json::Array(items)
}

/// The columns of quantiles.
fn quantile_columns(quantiles: &Vec<Quantile>) -> (r: (Json, Json))
    ensures
        r.0@ == JsonView::Array(quantiles@.map_values(|q: Quantile| double_json(q.quantile))),
        r.1@ == JsonView::Array(quantiles@.map_values(|q: Quantile| double_json(q.value))),
{
    broadcast use lemma_array_view;

    let mut points: Vec<Json> = Vec::new();
    let mut values: Vec<Json> = Vec::new();
    let mut i: usize = 0;
    while i < quantiles.len()
        invariant
            i <= quantiles@.len(),
            points@.len() == i,
            values@.len() == i,
            forall|j: int|
                0 <= j < i ==> (#[trigger] points@[j])@ == double_json(quantiles@[j].quantile),
            forall|j: int|
                0 <= j < i ==> (#[trigger] values@[j])@ == double_json(quantiles@[j].value),
        decreases quantiles@.len() - i,
    {
        points.push(Json::from_double(quantiles[i].quantile));
        values.push(Json::from_double(quantiles[i].value));
        i += 1;
    }
    assert(views(points@) =~= quantiles@.map_values(|q: Quantile| double_json(q.quantile)));
    assert(views(values@) =~= quantiles@.map_values(|q: Quantile| double_json(q.value)));
    (Json::Array(points), Json::Array(values))
}

/// The moments and the numbers of exemplars.
fn exemplar_numbers(exemplars: &Vec<Exemplar>, tz: chrono_tz::Tz) -> (r: (Json, Json))
    ensures
        r.0@ == JsonView::Array(
            exemplar_views(exemplars@).map_values(
                |e: ExemplarView| stamp_json(e.timestamp, Some(tz)),
            ),
        ),
        r.1@ == JsonView::Array(
            exemplar_views(exemplars@).map_values(|e: ExemplarView| double_json(e.value)),
        ),
{
    broadcast use lemma_array_view;

    let ghost all = exemplar_views(exemplars@);
    let mut moments: Vec<Json> = Vec::new();
    let mut values: Vec<Json> = Vec::new();
    let mut i: usize = 0;
    while i < exemplars.len()
        invariant
            i <= exemplars@.len(),
            all == exemplar_views(exemplars@),
            moments@.len() == i,
            values@.len() == i,
            forall|j: int|
                0 <= j < i ==> (#[trigger] moments@[j])@ == stamp_json(all[j].timestamp, Some(tz)),
            forall|j: int| 0 <= j < i ==> (#[trigger] values@[j])@ == double_json(all[j].value),
        decreases exemplars@.len() - i,
    {
        moments.push(stamp(exemplars[i].timestamp, tz));
        values.push(Json::from_double(exemplars[i].value));
        i += 1;
    }
    assert(views(moments@) =~= all.map_values(|e: ExemplarView| stamp_json(e.timestamp, Some(tz))));
    assert(views(values@) =~= all.map_values(|e: ExemplarView| double_json(e.value)));
    (Json::Array(moments), Json::Array(values))
}

/// The traces, the spans and the attributes of exemplars.
fn exemplar_texts(exemplars: &Vec<Exemplar>) -> (r: (Json, Json, Json))
    ensures
        r.0@ == JsonView::Array(
            exemplar_views(exemplars@).map_values(|e: ExemplarView| JsonView::String(e.trace_id)),
        ),
        r.1@ == JsonView::Array(
            exemplar_views(exemplars@).map_values(|e: ExemplarView| JsonView::String(e.span_id)),
        ),
        r.2@ == JsonView::Array(
            exemplar_views(exemplars@).map_values(|e: ExemplarView| JsonView::Object(e.attributes)),
        ),
{
    broadcast use lemma_array_view;

    let ghost all = exemplar_views(exemplars@);
    let mut traces: Vec<Json> = Vec::new();
    let mut spans: Vec<Json> = Vec::new();
    let mut labels: Vec<Json> = Vec::new();
    let mut i: usize = 0;
    while i < exemplars.len()
        invariant
            i <= exemplars@.len(),
            all == exemplar_views(exemplars@),
            traces@.len() == i,
            spans@.len() == i,
            labels@.len() == i,
            forall|j: int|
                0 <= j < i ==> (#[trigger] traces@[j])@ == JsonView::String(all[j].trace_id),
            forall|j: int|
                0 <= j < i ==> (#[trigger] spans@[j])@ == JsonView::String(all[j].span_id),
            forall|j: int|
                0 <= j < i ==> (#[trigger] labels@[j])@ == JsonView::Object(all[j].attributes),
        decreases exemplars@.len() - i,
    {
        traces.push(Json::String(exemplars[i].trace_id.clone()));
        spans.push(Json::String(exemplars[i].span_id.clone()));
        labels.push(Json::Object(exemplars[i].attributes.clone()));
        i += 1;
    }
    assert(views(traces@) =~= all.map_values(|e: ExemplarView| JsonView::String(e.trace_id)));
    assert(views(spans@) =~= all.map_values(|e: ExemplarView| JsonView::String(e.span_id)));
    assert(views(labels@) =~= all.map_values(|e: ExemplarView| JsonView::Object(e.attributes)));
    (Json::Array(traces), Json::Array(spans), Json::Array(labels))
}

impl MetricEvent {
    fn name_part(&self, tz: chrono_tz::Tz) -> (r: Vec<(String, Json)>)
        ensures
            column_views(r@) == name_columns(self@, Some(tz)),
    {
        let r = vec![
            column("timestamp", stamp(self.timestamp, tz)),
            column("start_timestamp", stamp(self.start_timestamp, tz)),
            column("metric_name", Json::from_text(&*self.metric_name)),
            column("metric_type", Json::from_text(self.metric_type.as_str())),
            column("metric_unit", Json::from_text(&*self.metric_unit)),
            column("metric_description", Json::from_text(&*self.metric_description)),
            column("service_name", Json::from_text(&*self.service_name)),
            column("scope_name", Json::from_text(&*self.scope_name)),
            column("scope_version", Json::from_text(&*self.scope_version)),
            column("resource_attributes", Json::Object((*self.resource_attributes).clone())),
            column("attributes", Json::Object(self.attributes.clone())),
        ];
        assert(column_views(r@) =~= name_columns(self@, Some(tz)));
        r
    }

    fn number_part(&self) -> (r: Vec<(String, Json)>)
        ensures
            column_views(r@) == number_columns(self@),
    {
        let monotonic: u64 = if self.is_monotonic {
            1
        } else {
            0
        };
        let r = vec![
            column("value", Json::from_double(self.value)),
            column("temporality", Json::from_text(self.temporality.as_str())),
            column("is_monotonic", Json::from_u64(monotonic)),
            column("count", Json::from_u64(self.count)),
            column("sum", Json::from_double(self.sum)),
            column("min", Json::from_double(self.min)),
            column("max", Json::from_double(self.max)),
            column("bucket_counts", counts(&self.bucket_counts)),
            column("explicit_bounds", doubles(&self.explicit_bounds)),
        ];
        assert(column_views(r@) =~= number_columns(self@));
        r
    }

    fn exponential_part(&self) -> (r: Vec<(String, Json)>)
        ensures
            column_views(r@) == exponential_columns(self@),
    {
        let r = vec![
            column("scale", Json::from_i64(self.scale as i64)),
            column("zero_count", Json::from_u64(self.zero_count)),
            column("zero_threshold", Json::from_double(self.zero_threshold)),
            column("positive_offset", Json::from_i64(self.positive_offset as i64)),
            column("positive_bucket_counts", counts(&self.positive_bucket_counts)),
            column("negative_offset", Json::from_i64(self.negative_offset as i64)),
            column("negative_bucket_counts", counts(&self.negative_bucket_counts)),
        ];
        assert(column_views(r@) =~= exponential_columns(self@));
        r
    }

    fn nested_part(&self, tz: chrono_tz::Tz) -> (r: Vec<(String, Json)>)
        ensures
            column_views(r@) == nested_columns(self@, Some(tz)),
    {
        let (points, values) = quantile_columns(&self.quantiles);
        let (moments, numbers) = exemplar_numbers(&self.exemplars, tz);
        let (traces, spans, labels) = exemplar_texts(&self.exemplars);
        let r = vec![
            column("quantiles.quantile", points),
            column("quantiles.value", values),
            column("exemplars.timestamp", moments),
            column("exemplars.value", numbers),
            column("exemplars.trace_id", traces),
            column("exemplars.span_id", spans),
            column("exemplars.attributes", labels),
            column("flags", Json::from_u64(self.flags as u64)),
        ];
        assert(column_views(r@) =~= nested_columns(self@, Some(tz)));
        r
    }

    /// The columns that every event has, in the order of [`FIXED_COLUMNS`],
    /// moments in the wall-clock time of a zone.
    pub fn fixed_columns(&self, tz: chrono_tz::Tz) -> (r: Vec<(String, Json)>)
        ensures
            column_views(r@) == columns_of(self@, Some(tz)),
    {
        let mut r = self.name_part(tz);
        let mut numbers = self.number_part();
        let mut exponential = self.exponential_part();
        let mut nested = self.nested_part(tz);
        r.append(&mut numbers);
        r.append(&mut exponential);
        r.append(&mut nested);
        assert(column_views(r@) =~= columns_of(self@, Some(tz)));
        r
    }
}

/// An event as a row with its columns named, moments in the wall-clock time of
/// a zone.
pub struct WithZone<'a> {
    pub event: &'a MetricEvent,
    pub tz: chrono_tz::Tz,
}

impl<'a> WithZone<'a> {
    /// The columns with their names, in the order in which they are written.
    pub fn columns(&self) -> (r: Vec<(String, Json)>)
        ensures
            column_views(r@) == named_row(self.event@, Some(self.tz)),
            has_further_columns(column_views(r@), self.event@),
    {
        let fields = &self.event.fields;
        proof {
            use_type_invariant(fields);
        }
        let mut r = self.event.fixed_columns(self.tz);
        let ghost fixed = column_views(r@);
        if let Some(shared) = &self.event.shared {
            let map: &JsonMap = &**shared;
            proof {
                use_type_invariant(map);
            }
            push_unshadowed(map, fields, &mut r);
        }
        assert(fixed + Seq::<(Seq<char>, JsonView)>::empty() =~= fixed);
        push_entries(fields, &mut r);
        proof {
            lemma_further_columns(self.event@, Some(self.tz));
        }
        r
    }
}

/// Puts the columns of a map behind the others.
fn push_entries(map: &JsonMap, columns: &mut Vec<(String, Json)>)
    ensures
        column_views(final(columns)@) == column_views(old(columns)@) + map@,
{
    let mut i: usize = 0;
    assert(map@.take(0) =~= Seq::empty());
    assert(column_views(columns@) =~= column_views(columns@) + map@.take(0));
    while i < map.len()
        invariant
            i <= map@.len(),
            column_views(columns@) == column_views(old(columns)@) + map@.take(i as int),
        decreases map@.len() - i,
    {
        let (key, value) = map.entry(i);
        let ghost before = columns@;
        columns.push((key.clone(), value.clone()));
        proof {
            assert(column_views(columns@) =~= column_views(before).push(map@[i as int]));
            assert(map@.take(i + 1) =~= map@.take(i as int).push(map@[i as int]));
            assert(column_views(columns@) =~= column_views(old(columns)@) + map@.take(i + 1));
        }
        i += 1;
    }
    assert(map@.take(i as int) =~= map@);
}

/// Puts the shared columns behind the others, but for those that a field takes
/// the place of.
fn push_unshadowed(shared: &JsonMap, fields: &JsonMap, columns: &mut Vec<(String, Json)>)
    ensures
        column_views(final(columns)@) == column_views(old(columns)@) + unshadowed(
            shared@,
            fields@,
        ),
{
    let mut i: usize = 0;
    assert(shared@.take(0) =~= Seq::empty());
    assert(column_views(columns@) =~= column_views(columns@) + unshadowed(
        shared@.take(0),
        fields@,
    ));
    while i < shared.len()
        invariant
            i <= shared@.len(),
            column_views(columns@) == column_views(old(columns)@) + unshadowed(
                shared@.take(i as int),
                fields@,
            ),
        decreases shared@.len() - i,
    {
        let (key, value) = shared.entry(i);
        let ghost before = columns@;
        proof {
            assert(shared@.take(i + 1).drop_last() =~= shared@.take(i as int));
        }
        if !fields.contains_key(key.as_str()) {
            columns.push((key.clone(), value.clone()));
            assert(column_views(columns@) =~= column_views(before).push(shared@[i as int]));
        }
        assert(column_views(columns@) =~= column_views(old(columns)@) + unshadowed(
            shared@.take(i + 1),
            fields@,
        ));
        i += 1;
    }
    assert(shared@.take(i as int) =~= shared@);
}

/// An event as a row of values alone: the columns of [`FIXED_COLUMNS`], and then
/// the further ones that `extra` names, null where the event has none.
pub struct CompactRow<'a> {
    pub event: &'a MetricEvent,
    pub tz: chrono_tz::Tz,
    pub extra: &'a [String],
}

impl<'a> CompactRow<'a> {
    /// The values, in the order in which they are written.
    pub fn values(&self) -> (r: Vec<Json>)
        ensures
            views(r@) == compact_row(self.event@, Some(self.tz), texts(self.extra@)),
    {
        let columns = self.event.fixed_columns(self.tz);
        let ghost fixed = columns_of(self.event@, Some(self.tz)).map_values(
            |column: (Seq<char>, JsonView)| column.1,
        );
        let ghost named = texts(self.extra@).map_values(
            |name: Seq<char>| extra_or_null(self.event@, name),
        );
        let mut r: Vec<Json> = Vec::new();
        let mut i: usize = 0;
        while i < columns.len()
            invariant
                i <= columns@.len(),
                column_views(columns@) == columns_of(self.event@, Some(self.tz)),
                fixed == columns_of(self.event@, Some(self.tz)).map_values(
                    |column: (Seq<char>, JsonView)| column.1,
                ),
                views(r@) == fixed.take(i as int),
            decreases columns@.len() - i,
        {
            assert(column_views(columns@)[i as int].1 == columns@[i as int].1@);
            let ghost before = r@;
            r.push(columns[i].1.clone());
            assert(views(r@) =~= views(before).push(fixed[i as int]));
            assert(views(r@) =~= fixed.take(i + 1));
            i += 1;
        }
        assert(column_views(columns@).len() == columns@.len());
        assert(fixed.take(i as int) =~= fixed);
        let mut k: usize = 0;
        assert(views(r@) =~= fixed + named.take(0));
        while k < self.extra.len()
            invariant
                k <= self.extra@.len(),
                named == texts(self.extra@).map_values(
                    |name: Seq<char>| extra_or_null(self.event@, name),
                ),
                views(r@) == fixed + named.take(k as int),
            decreases self.extra@.len() - k,
        {
            let ghost before = r@;
            let value: Json = match self.event.get(self.extra[k].as_str()) {
                Some(value) => value.clone(),
                None => Json::Null,
            };
            r.push(value);
            assert(views(r@) =~= views(before).push(named[k as int]));
            assert(views(r@) =~= fixed + named.take(k + 1));
            k += 1;
        }
        assert(named.take(k as int) =~= named);
        r
    }
}

/// The columns that every event has are those of [`FIXED_COLUMNS`], in that
/// order.
pub proof fn lemma_fixed_columns_are_in_order(event: EventView, zone: Option<chrono_tz::Tz>)
    ensures
        columns_of(event, zone).len() == 35,
        forall|i: int|
            0 <= i < 35 ==> (#[trigger] columns_of(event, zone)[i]).0 == FIXED_COLUMNS@[i]@,
{
}

/// A compact row has, at each place, the value that the row with names has under
/// the name of that column.
pub proof fn lemma_compact_row_lines_up(
    event: EventView,
    zone: Option<chrono_tz::Tz>,
    extra: Seq<Seq<char>>,
)
    ensures
        compact_row(event, zone, extra).len() == 35 + extra.len(),
        forall|i: int|
            0 <= i < 35 ==> named_row(event, zone)[i] == (
                FIXED_COLUMNS@[i]@,
                #[trigger] compact_row(event, zone, extra)[i],
            ),
        forall|i: int|
            0 <= i < extra.len() ==> #[trigger] compact_row(event, zone, extra)[35 + i]
                == extra_or_null(event, extra[i]),
{
    lemma_fixed_columns_are_in_order(event, zone);
    let named = extra.map_values(|name: Seq<char>| extra_or_null(event, name));
    assert forall|i: int| 0 <= i < extra.len() implies #[trigger] compact_row(event, zone, extra)[35
        + i] == extra_or_null(event, extra[i]) by {
        assert(compact_row(event, zone, extra)[35 + i] == named[i]);
    }
}

/// How many values a column has, where it is an array.
pub open spec fn values_in(column: (Seq<char>, JsonView)) -> Option<nat> {
    match column.1 {
        JsonView::Array(items) => Some(items.len()),
        _ => None,
    }
}

/// The columns of the quantiles are arrays of one length, and so are those of the
/// exemplars.
pub proof fn lemma_nested_columns_have_one_length(event: EventView, zone: Option<chrono_tz::Tz>)
    ensures
        forall|i: int|
            27 <= i < 29 ==> values_in(#[trigger] columns_of(event, zone)[i]) == Some(
                event.quantiles.len(),
            ),
        forall|i: int|
            29 <= i < 34 ==> values_in(#[trigger] columns_of(event, zone)[i]) == Some(
                event.exemplars.len(),
            ),
        FIXED_COLUMNS@[27]@ == "quantiles.quantile"@,
        FIXED_COLUMNS@[29]@ == "exemplars.timestamp"@,
        FIXED_COLUMNS@[33]@ == "exemplars.attributes"@,
{
}

/// What stays of the shared columns: those whose names no field has.
proof fn lemma_unshadowed(shared: Entries, fields: Entries)
    ensures
        forall|i: int|
            0 <= i < unshadowed(shared, fields).len() ==> shared.contains(
                #[trigger] unshadowed(shared, fields)[i],
            ) && !has_key(fields, unshadowed(shared, fields)[i].0),
        forall|i: int|
            0 <= i < shared.len() && !has_key(fields, (#[trigger] shared[i]).0) ==> unshadowed(
                shared,
                fields,
            ).contains(shared[i]),
    decreases shared.len(),
{
    if shared.len() > 0 {
        let rest = shared.drop_last();
        let before = unshadowed(rest, fields);
        let after = unshadowed(shared, fields);
        lemma_unshadowed(rest, fields);
        assert forall|i: int| 0 <= i < after.len() implies shared.contains(#[trigger] after[i])
            && !has_key(fields, after[i].0) by {
            if i < before.len() {
                assert(after[i] == before[i]);
                let j = choose|j: int| 0 <= j < rest.len() && rest[j] == before[i];
                assert(shared[j] == before[i]);
            } else {
                assert(after[i] == shared[shared.len() - 1]);
            }
        }
        assert forall|i: int|
            0 <= i < shared.len() && !has_key(
                fields,
                (#[trigger] shared[i]).0,
            ) implies after.contains(shared[i]) by {
            if i < rest.len() {
                assert(rest[i] == shared[i]);
                let j = choose|j: int| 0 <= j < before.len() && before[j] == rest[i];
                assert(after[j] == shared[i]);
            } else {
                assert(after[after.len() - 1] == shared[i]);
            }
        }
    }
}

/// A row has the further columns of its event.
pub proof fn lemma_further_columns(event: EventView, zone: Option<chrono_tz::Tz>)
    requires
        ordered(event.fields),
        event.shared is Some ==> ordered(event.shared->Some_0),
    ensures
        has_further_columns(named_row(event, zone), event),
{
    let row = named_row(event, zone);
    assert forall|column: (Seq<char>, JsonView)| #[trigger]
        row.skip(35).contains(column) <==> event.extra(column.0) == Some(column.1) by {
        lemma_further_column(event, zone, column);
    }
}

proof fn lemma_further_column(
    event: EventView,
    zone: Option<chrono_tz::Tz>,
    column: (Seq<char>, JsonView),
)
    requires
        ordered(event.fields),
        event.shared is Some ==> ordered(event.shared->Some_0),
    ensures
        named_row(event, zone).skip(35).contains(column) <==> event.extra(column.0) == Some(
            column.1,
        ),
{
    lemma_fixed_columns_are_in_order(event, zone);
    let row = named_row(event, zone).skip(35);
    let fields = event.fields;
    let rest = match event.shared {
        Some(shared) => unshadowed(shared, fields),
        None => Seq::empty(),
    };
    assert(row =~= rest + fields);
    if event.shared is Some {
        lemma_unshadowed(event.shared->Some_0, fields);
    }
    if row.contains(column) {
        let i = choose|i: int| 0 <= i < row.len() && row[i] == column;
        if i < rest.len() {
            let shared = event.shared->Some_0;
            assert(rest[i] == column);
            let j = choose|j: int| 0 <= j < shared.len() && shared[j] == column;
            lemma_found(shared, j);
        } else {
            assert(fields[i - rest.len()] == column);
            lemma_found(fields, i - rest.len());
        }
    }
    if event.extra(column.0) == Some(column.1) {
        if has_key(fields, column.0) {
            let j = rank(fields, column.0) as int;
            assert(row[rest.len() + j] == fields[j]);
            assert(fields[j] == column);
        } else {
            let shared = event.shared->Some_0;
            let j = rank(shared, column.0) as int;
            assert(shared[j] == column);
            let i = choose|i: int| 0 <= i < rest.len() && rest[i] == shared[j];
            assert(row[i] == column);
        }
    }
}

/// A zone whose clocks are never ahead shows what UTC shows.
pub proof fn lemma_like_utc(event: EventView, tz: chrono_tz::Tz)
    requires
        forall|secs: int| 0 <= secs <= 18_446_744_073 ==> #[trigger] zone_offset(tz, secs) == 0,
    ensures
        columns_of(event, Some(tz)) == columns_of(event, None),
{
    let here = Some(tz);
    assert forall|nanos: u64| #[trigger] stamp_json(nanos, here) == stamp_json(nanos, None) by {
        assert(0 <= nanos as int / 1_000_000_000 <= 18_446_744_073);
    }
    let a = event.exemplars.map_values(|e: ExemplarView| stamp_json(e.timestamp, here));
    let b = event.exemplars.map_values(|e: ExemplarView| stamp_json(e.timestamp, None));
    assert(a =~= b);
    assert(name_columns(event, here) =~= name_columns(event, None));
    assert(nested_columns(event, here) =~= nested_columns(event, None));
}

impl MetricEvent {
    /// The row with its columns named, moments in UTC.
    pub fn columns(&self) -> (r: Vec<(String, Json)>)
        ensures
            column_views(r@) == named_row(self@, None),
            has_further_columns(column_views(r@), self@),
    {
        let tz = utc();
        proof {
            lemma_like_utc(self@, tz);
        }
        WithZone { event: self, tz }.columns()
    }
}

} // verus!
