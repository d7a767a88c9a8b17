//! Making an export request fit the decoder keeps what is there, and doing it
//! again changes nothing.
use crate::count::total;
use crate::document::defaulted;
use crate::json::{
    has_key, lemma_put_same, ordered, rank, removed, value_at, well_formed, Entries, JsonView,
};
use crate::otlp::normalize::{
    as_int_read, buckets_read, common_read, exemplar_defaults, exemplar_read, exemplars_read,
    exponential_defaults, exponential_read, members, metric_points, no_items, number_wrapped,
    point_read, points_in, points_read, quantile_read, quantiles_read, request_counts,
    request_read, resource_counts, scope_counts, summary_read, text_json, zero_double, zero_int,
};
use crate::otlp::normalize_laws::{
    exponential_complete, int_read, is_exponential_field, is_kind, lemma_as_int_read,
    lemma_defaulted, lemma_every_point_is_read, lemma_exemplar_is_complete,
    lemma_exponential_defaults, lemma_put, lemma_removed, metrics_at, points_under,
};
use crate::event::row_laws::writes_whole;
use crate::scan_laws::{lemma_number_reads_back, signed_decimal};
use vstd::prelude::*;

verus! {

/// The keys of an object are in order, where the value is one.
spec fn keys_ordered(json: JsonView) -> bool {
    match json {
        JsonView::Object(entries) => ordered(entries),
        _ => true,
    }
}

/// An exemplar that fits the decoder stays as it is.
proof fn lemma_exemplar_again(json: JsonView)
    requires
        keys_ordered(json),
    ensures
        exemplar_read(exemplar_read(json)) == exemplar_read(json),
{
    if let JsonView::Object(entries) = json {
        reveal_strlit("asInt");
        reveal_strlit("asDouble");
        reveal_strlit("value");
        reveal_strlit("filteredAttributes");
        reveal_strlit("timeUnixNano");
        reveal_strlit("spanId");
        reveal_strlit("traceId");
        assert("asInt"@.len() == 5 && "asInt"@[0] == 'a');
        assert("asDouble"@.len() == 8);
        assert("value"@.len() == 5 && "value"@[0] == 'v');
        assert("filteredAttributes"@.len() == 18);
        assert("timeUnixNano"@.len() == 12);
        assert("spanId"@.len() == 6);
        assert("traceId"@.len() == 7);
        let read = as_int_read(entries);
        let wrapped = number_wrapped(read);
        lemma_as_int_read(entries);
        lemma_number_wrapped(read);
        let first = defaulted(wrapped, "filteredAttributes"@, no_items());
        let second = defaulted(first, "timeUnixNano"@, text_json("0"@));
        let third = defaulted(second, "spanId"@, text_json(""@));
        let after = defaulted(third, "traceId"@, text_json(""@));
        lemma_defaulted(wrapped, "filteredAttributes"@, no_items());
        lemma_defaulted(first, "timeUnixNano"@, text_json("0"@));
        lemma_defaulted(second, "spanId"@, text_json(""@));
        lemma_defaulted(third, "traceId"@, text_json(""@));
        assert(after == exemplar_defaults(wrapped));
        assert(value_at(after, "asInt"@) == value_at(wrapped, "asInt"@));
        assert(value_at(after, "asDouble"@) == value_at(wrapped, "asDouble"@));
        assert(value_at(after, "value"@) == value_at(wrapped, "value"@));
        assert(as_int_read(after) == after);
        assert(number_wrapped(after) == after);
        assert(exemplar_defaults(after) == after);
    }
}

/// Moving the number of an exemplar leaves no number behind that would be moved,
/// and `asInt` as it was, or gone.
proof fn lemma_number_wrapped(read: Entries)
    requires
        ordered(read),
    ensures
        ordered(number_wrapped(read)),
        value_at(number_wrapped(read), "value"@) is Some || (value_at(
            number_wrapped(read),
            "asDouble"@,
        ) is None && value_at(number_wrapped(read), "asInt"@) is None),
        value_at(number_wrapped(read), "asInt"@) is None || value_at(
            number_wrapped(read),
            "asInt"@,
        ) == value_at(read, "asInt"@),
{
    if !has_key(read, "value"@) {
        if let Some(number) = value_at(read, "asDouble"@) {
            lemma_removed(read, "asDouble"@);
            lemma_put(
                removed(read, "asDouble"@),
                "value"@,
                JsonView::Object(seq![("asDouble"@, number)]),
            );
            reveal_strlit("asInt");
            reveal_strlit("asDouble");
            reveal_strlit("value");
            assert("asInt"@.len() == 5 && "asInt"@[0] == 'a');
            assert("asDouble"@.len() == 8);
            assert("value"@.len() == 5 && "value"@[0] == 'v');
        } else if let Some(number) = value_at(read, "asInt"@) {
            lemma_removed(read, "asInt"@);
            lemma_put(
                removed(read, "asInt"@),
                "value"@,
                JsonView::Object(seq![("asInt"@, number)]),
            );
            reveal_strlit("asInt");
            reveal_strlit("value");
            assert("asInt"@[0] == 'a' && "value"@[0] == 'v');
        }
    }
}

/// Exemplars that fit the decoder stay as they are.
proof fn lemma_exemplars_again(items: Seq<JsonView>)
    requires
        forall|i: int| 0 <= i < items.len() ==> keys_ordered(#[trigger] items[i]),
    ensures
        exemplars_read(exemplars_read(items)) == exemplars_read(items),
{
    assert forall|i: int| 0 <= i < items.len() implies exemplar_read(
        exemplar_read(#[trigger] items[i]),
    ) == exemplar_read(items[i]) by {
        lemma_exemplar_again(items[i]);
    }
    assert(exemplars_read(exemplars_read(items)) =~= exemplars_read(items));
}

/// A quantile that fits the decoder stays as it is.
proof fn lemma_quantile_again(json: JsonView)
    requires
        keys_ordered(json),
    ensures
        quantile_read(quantile_read(json)) == quantile_read(json),
{
    if let JsonView::Object(entries) = json {
        let first = defaulted(entries, "quantile"@, zero_double());
        lemma_defaulted(entries, "quantile"@, zero_double());
        lemma_defaulted(first, "value"@, zero_double());
    }
}

/// Quantiles that fit the decoder stay as they are.
proof fn lemma_quantiles_again(items: Seq<JsonView>)
    requires
        forall|i: int| 0 <= i < items.len() ==> keys_ordered(#[trigger] items[i]),
    ensures
        quantiles_read(quantiles_read(items)) == quantiles_read(items),
{
    assert forall|i: int| 0 <= i < items.len() implies quantile_read(
        quantile_read(#[trigger] items[i]),
    ) == quantile_read(items[i]) by {
        lemma_quantile_again(items[i]);
    }
    assert(quantiles_read(quantiles_read(items)) =~= quantiles_read(items));
}

/// Buckets with the fields that the decoder asks of them.
pub open spec fn buckets_filled(buckets: Entries) -> Entries {
    defaulted(defaulted(buckets, "offset"@, zero_int()), "bucketCounts"@, no_items())
}

/// What becomes of a field of a data point under `kind`.
pub open spec fn field_read(key: Seq<char>, value: JsonView, kind: Seq<char>) -> JsonView {
    if key == "asInt"@ {
        int_read(value)
    } else if key == "exemplars"@ {
        match value {
            JsonView::Array(items) => JsonView::Array(exemplars_read(items)),
            _ => value,
        }
    } else if kind == "exponentialHistogram"@ && (key == "positive"@ || key == "negative"@) {
        match value {
            JsonView::Object(buckets) => JsonView::Object(buckets_filled(buckets)),
            _ => value,
        }
    } else if kind == "summary"@ && key == "quantileValues"@ {
        match value {
            JsonView::Array(items) => JsonView::Array(quantiles_read(items)),
            _ => value,
        }
    } else {
        value
    }
}

/// The fields of a data point under `kind`, made to fit the decoder.
pub open spec fn fields_read(entries: Entries, kind: Seq<char>) -> Entries {
    if kind == "exponentialHistogram"@ {
        exponential_read(common_read(entries))
    } else if kind == "summary"@ {
        summary_read(common_read(entries))
    } else {
        common_read(entries)
    }
}

/// The fields of a data point that are made to fit the decoder keep their values,
/// but for those that [`field_read`] reads, and none is lost. Those that are new
/// are the ones that a point of an exponential histogram must have.
pub open spec fn keeps_fields(entries: Entries, after: Entries, kind: Seq<char>) -> bool {
    &&& forall|key: Seq<char>|
        has_key(entries, key) ==> #[trigger] value_at(after, key) == Some(
            field_read(key, value_at(entries, key)->Some_0, kind),
        )
    &&& forall|key: Seq<char>|
        !has_key(entries, key) ==> (#[trigger] value_at(after, key) is Some <==> kind
            == "exponentialHistogram"@ && is_exponential_field(key))
}

/// The names that are read are all different.
proof fn lemma_names_differ()
    ensures
        "asInt"@ != "exemplars"@,
        "asInt"@ != "positive"@,
        "asInt"@ != "negative"@,
        "asInt"@ != "quantileValues"@,
        "exemplars"@ != "positive"@,
        "exemplars"@ != "negative"@,
        "exemplars"@ != "quantileValues"@,
        "positive"@ != "negative"@,
        !is_exponential_field("asInt"@),
        !is_exponential_field("positive"@),
        !is_exponential_field("negative"@),
        is_exponential_field("exemplars"@),
        "exponentialHistogram"@ != "summary"@,
{
    reveal_strlit("asInt");
    reveal_strlit("exemplars");
    reveal_strlit("positive");
    reveal_strlit("negative");
    reveal_strlit("quantileValues");
    reveal_strlit("attributes");
    reveal_strlit("startTimeUnixNano");
    reveal_strlit("timeUnixNano");
    reveal_strlit("count");
    reveal_strlit("scale");
    reveal_strlit("zeroCount");
    reveal_strlit("zeroThreshold");
    reveal_strlit("flags");
    reveal_strlit("exponentialHistogram");
    reveal_strlit("summary");
    assert("asInt"@.len() == 5 && "asInt"@[0] == 'a');
    assert("exemplars"@.len() == 9);
    assert("positive"@.len() == 8 && "positive"@[0] == 'p');
    assert("negative"@.len() == 8 && "negative"@[0] == 'n');
    assert("quantileValues"@.len() == 14);
    assert("attributes"@.len() == 10);
    assert("startTimeUnixNano"@.len() == 17);
    assert("timeUnixNano"@.len() == 12);
    assert("count"@.len() == 5 && "count"@[0] == 'c');
    assert("scale"@.len() == 5 && "scale"@[0] == 's');
    assert("zeroCount"@.len() == 9);
    assert("zeroThreshold"@.len() == 13);
    assert("flags"@.len() == 5 && "flags"@[0] == 'f');
    assert("exponentialHistogram"@.len() == 20);
    assert("summary"@.len() == 7);
}

/// What every kind of point has is read, and everything else stays.
proof fn lemma_common_fields(entries: Entries)
    requires
        ordered(entries),
    ensures
        ordered(common_read(entries)),
        forall|key: Seq<char>| #[trigger]
            value_at(common_read(entries), key) == match value_at(entries, key) {
                Some(value) => Some(field_read(key, value, Seq::empty())),
                None => None,
            },
{
    lemma_names_differ();
    lemma_no_kind();
    lemma_as_int_read(entries);
    let read = as_int_read(entries);
    if let Some(JsonView::Array(items)) = value_at(read, "exemplars"@) {
        lemma_put(read, "exemplars"@, JsonView::Array(exemplars_read(items)));
    }
}

/// No kind has no name.
proof fn lemma_no_kind()
    ensures
        Seq::<char>::empty() != "exponentialHistogram"@,
        Seq::<char>::empty() != "summary"@,
{
    reveal_strlit("exponentialHistogram");
    reveal_strlit("summary");
    assert("exponentialHistogram"@.len() == 20);
    assert("summary"@.len() == 7);
}

/// The values of an array under a key have their keys in order.
proof fn lemma_items_ordered(entries: Entries, key: Seq<char>)
    requires
        well_formed(JsonView::Object(entries)),
    ensures
        match value_at(entries, key) {
            Some(JsonView::Array(items)) => forall|i: int|
                0 <= i < items.len() ==> keys_ordered(#[trigger] items[i]),
            Some(JsonView::Object(inner)) => ordered(inner),
            _ => true,
        },
{
    if has_key(entries, key) {
        let value = entries[rank(entries, key) as int].1;
        assert(well_formed(value));
        if let JsonView::Array(items) = value {
            assert forall|i: int| 0 <= i < items.len() implies keys_ordered(
                #[trigger] items[i],
            ) by {
                assert(well_formed(items[i]));
            }
        }
    }
}

/// A data point that is made to fit the decoder keeps what it has.
pub proof fn lemma_point_keeps_fields(entries: Entries, kind: Seq<char>)
    requires
        ordered(entries),
    ensures
        point_read(JsonView::Object(entries), kind) == JsonView::Object(fields_read(entries, kind)),
        ordered(fields_read(entries, kind)),
        keeps_fields(entries, fields_read(entries, kind), kind),
{
    lemma_names_differ();
    lemma_no_kind();
    lemma_common_fields(entries);
    let common = common_read(entries);
    assert forall|key: Seq<char>| #[trigger] has_key(common, key) == has_key(entries, key) by {
        assert(value_at(common, key) is Some <==> value_at(entries, key) is Some);
    }
    if kind == "exponentialHistogram"@ {
        let filled = exponential_defaults(common);
        let positive = buckets_read(filled, "positive"@);
        lemma_exponential_defaults(common);
        lemma_side_read(filled, "positive"@);
        lemma_side_read(positive, "negative"@);
        let after = buckets_read(positive, "negative"@);
        assert forall|key: Seq<char>| has_key(entries, key) implies #[trigger] value_at(after, key)
            == Some(field_read(key, value_at(entries, key)->Some_0, kind)) by {
            assert(has_key(common, key));
            assert(value_at(filled, key) == value_at(common, key));
        }
        assert forall|key: Seq<char>| !has_key(entries, key) implies (#[trigger] value_at(
            after,
            key,
        ) is Some <==> is_exponential_field(key)) by {
            assert(!has_key(common, key));
            assert(value_at(common, key) is None);
            assert(has_key(filled, key) == (value_at(filled, key) is Some));
        }
    } else if kind == "summary"@ {
        if let Some(JsonView::Array(items)) = value_at(common, "quantileValues"@) {
            lemma_put(common, "quantileValues"@, JsonView::Array(quantiles_read(items)));
        }
    }
}

/// Filling in one side fills in its buckets and leaves everything else.
proof fn lemma_side_read(entries: Entries, side: Seq<char>)
    requires
        ordered(entries),
    ensures
        ordered(buckets_read(entries, side)),
        forall|key: Seq<char>| #[trigger]
            value_at(buckets_read(entries, side), key) == match value_at(entries, key) {
                Some(JsonView::Object(buckets)) if key == side => Some(
                    JsonView::Object(buckets_filled(buckets)),
                ),
                other => other,
            },
{
    if let Some(JsonView::Object(buckets)) = value_at(entries, side) {
        lemma_put(entries, side, JsonView::Object(buckets_filled(buckets)));
    }
}

/// Filling in only adds what is missing: every member of the buckets of a side
/// stays, and so does every member of a quantile.
pub proof fn lemma_members_are_kept(entries: Entries, key: Seq<char>)
    requires
        ordered(entries),
        has_key(entries, key),
    ensures
        value_at(buckets_filled(entries), key) == value_at(entries, key),
        match quantile_read(JsonView::Object(entries)) {
            JsonView::Object(after) => value_at(after, key) == value_at(entries, key),
            _ => false,
        },
{
    lemma_defaulted(entries, "offset"@, zero_int());
    lemma_defaulted(defaulted(entries, "offset"@, zero_int()), "bucketCounts"@, no_items());
    lemma_defaulted(entries, "quantile"@, zero_double());
    lemma_defaulted(
        defaulted(entries, "quantile"@, zero_double()),
        "value"@,
        zero_double(),
    );
}

/// Buckets that fit the decoder stay as they are.
proof fn lemma_buckets_again(buckets: Entries)
    requires
        ordered(buckets),
    ensures
        buckets_filled(buckets_filled(buckets)) == buckets_filled(buckets),
{
    let first = defaulted(buckets, "offset"@, zero_int());
    lemma_defaulted(buckets, "offset"@, zero_int());
    lemma_defaulted(first, "bucketCounts"@, no_items());
}

/// What every kind of point has stays as it is, once it fits the decoder.
proof fn lemma_common_again(entries: Entries, kind: Seq<char>)
    requires
        well_formed(JsonView::Object(entries)),
    ensures
        common_read(fields_read(entries, kind)) == fields_read(entries, kind),
{
    let after = fields_read(entries, kind);
    lemma_names_differ();
    lemma_point_keeps_fields(entries, kind);
    lemma_items_ordered(entries, "exemplars"@);
    assert(value_at(after, "asInt"@) is Some <==> has_key(entries, "asInt"@));
    assert(as_int_read(after) == after);
    if has_key(entries, "exemplars"@) {
        if let Some(JsonView::Array(items)) = value_at(entries, "exemplars"@) {
            lemma_exemplars_again(items);
            lemma_put_same(after, "exemplars"@, JsonView::Array(exemplars_read(items)));
        }
    } else if kind == "exponentialHistogram"@ {
        let common = common_read(entries);
        let filled = exponential_defaults(common);
        lemma_common_fields(entries);
        assert(value_at(common, "exemplars"@) is None);
        assert(!has_key(common, "exemplars"@));
        lemma_exponential_defaults(common);
        lemma_side_read(filled, "positive"@);
        lemma_side_read(buckets_read(filled, "positive"@), "negative"@);
        assert(value_at(after, "exemplars"@) == Some(no_items()));
        assert(exemplars_read(Seq::empty()) =~= Seq::empty());
        lemma_put_same(after, "exemplars"@, no_items());
    } else {
        assert(value_at(after, "exemplars"@) is None);
    }
}

/// The fields that a point of an exponential histogram must have are all there.
proof fn lemma_nothing_to_add(entries: Entries)
    requires
        exponential_complete(entries),
    ensures
        exponential_defaults(entries) == entries,
{
}

/// One side of a point that fits the decoder stays as it is.
proof fn lemma_side_again(entries: Entries, side: Seq<char>)
    requires
        well_formed(JsonView::Object(entries)),
        side == "positive"@ || side == "negative"@,
    ensures
        buckets_read(fields_read(entries, "exponentialHistogram"@), side) == fields_read(
            entries,
            "exponentialHistogram"@,
        ),
{
    let kind = "exponentialHistogram"@;
    let after = fields_read(entries, kind);
    lemma_names_differ();
    lemma_point_keeps_fields(entries, kind);
    lemma_items_ordered(entries, side);
    if has_key(entries, side) {
        assert(value_at(after, side) == Some(
            field_read(side, value_at(entries, side)->Some_0, kind),
        ));
        if let Some(JsonView::Object(buckets)) = value_at(entries, side) {
            lemma_buckets_again(buckets);
            lemma_put_same(after, side, JsonView::Object(buckets_filled(buckets)));
        }
    } else {
        assert(value_at(after, side) is None);
    }
}

/// A data point that was made to fit the decoder stays as it is when that is done
/// again, and what is no object stays as it is from the start.
pub proof fn lemma_point_again(json: JsonView, kind: Seq<char>)
    requires
        well_formed(json),
    ensures
        !(json is Object) ==> point_read(json, kind) == json,
        point_read(point_read(json, kind), kind) == point_read(json, kind),
{
    if let JsonView::Object(entries) = json {
        let after = fields_read(entries, kind);
        lemma_names_differ();
        lemma_point_keeps_fields(entries, kind);
        lemma_common_again(entries, kind);
        if kind == "exponentialHistogram"@ {
            assert forall|key: Seq<char>| is_exponential_field(key) implies #[trigger] has_key(
                after,
                key,
            ) by {
                assert(value_at(after, key) is Some);
            }
            lemma_nothing_to_add(after);
            lemma_side_again(entries, "positive"@);
            lemma_side_again(entries, "negative"@);
        } else if kind == "summary"@ {
            lemma_items_ordered(entries, "quantileValues"@);
            if has_key(entries, "quantileValues"@) {
                assert(value_at(after, "quantileValues"@) == Some(
                    field_read(
                        "quantileValues"@,
                        value_at(entries, "quantileValues"@)->Some_0,
                        kind,
                    ),
                ));
                if let Some(JsonView::Array(items)) = value_at(entries, "quantileValues"@) {
                    lemma_quantiles_again(items);
                    lemma_put_same(
                        after,
                        "quantileValues"@,
                        JsonView::Array(quantiles_read(items)),
                    );
                }
            } else {
                assert(value_at(after, "quantileValues"@) is None);
            }
        }
    }
}

/// An object has every member that it had, and maybe more; anything else is as it
/// was.
pub open spec fn only_gains(before: JsonView, after: JsonView) -> bool {
    match (before, after) {
        (JsonView::Object(had), JsonView::Object(has)) => forall|key: Seq<char>|
            has_key(had, key) ==> #[trigger] value_at(has, key) == value_at(had, key),
        _ => after == before,
    }
}

/// The values of an array only gain members; anything else is as it was.
pub open spec fn items_only_gain(before: JsonView, after: JsonView) -> bool {
    match (before, after) {
        (JsonView::Array(had), JsonView::Array(has)) => {
            &&& has.len() == had.len()
            &&& forall|i: int| 0 <= i < had.len() ==> only_gains(had[i], #[trigger] has[i])
        },
        _ => after == before,
    }
}

/// The buckets and the quantiles of a data point only gain members.
pub open spec fn inner_only_gain(entries: Entries, after: Entries, kind: Seq<char>) -> bool {
    &&& kind == "exponentialHistogram"@ ==> forall|side: Seq<char>|
        (side == "positive"@ || side == "negative"@) && has_key(entries, side) ==> only_gains(
            value_at(entries, side)->Some_0,
            (#[trigger] value_at(after, side))->Some_0,
        )
    &&& kind == "summary"@ && has_key(entries, "quantileValues"@) ==> items_only_gain(
        value_at(entries, "quantileValues"@)->Some_0,
        value_at(after, "quantileValues"@)->Some_0,
    )
}

/// A data point under `kind` keeps what it has: an object its fields, and the
/// members of its buckets and quantiles; anything else is as it was.
pub open spec fn keeps_point(before: JsonView, after: JsonView, kind: Seq<char>) -> bool {
    match (before, after) {
        (JsonView::Object(entries), JsonView::Object(fields)) => keeps_fields(entries, fields, kind)
            && inner_only_gain(entries, fields, kind),
        _ => after == before,
    }
}

/// Filling in buckets or a quantile only adds members.
proof fn lemma_filling_only_gains(entries: Entries)
    requires
        ordered(entries),
    ensures
        only_gains(JsonView::Object(entries), JsonView::Object(buckets_filled(entries))),
        only_gains(JsonView::Object(entries), quantile_read(JsonView::Object(entries))),
{
    let filled = buckets_filled(entries);
    let read = quantile_read(JsonView::Object(entries))->Object_0;
    assert forall|key: Seq<char>| has_key(entries, key) implies #[trigger] value_at(filled, key)
        == value_at(entries, key) by {
        lemma_members_are_kept(entries, key);
    }
    assert forall|key: Seq<char>| has_key(entries, key) implies #[trigger] value_at(read, key)
        == value_at(entries, key) by {
        lemma_members_are_kept(entries, key);
    }
}

/// A data point that is made to fit the decoder keeps what it has.
pub proof fn lemma_point_is_kept(json: JsonView, kind: Seq<char>)
    requires
        well_formed(json),
    ensures
        keeps_point(json, point_read(json, kind), kind),
{
    if let JsonView::Object(entries) = json {
        let after = fields_read(entries, kind);
        lemma_names_differ();
        lemma_point_keeps_fields(entries, kind);
        if kind == "exponentialHistogram"@ {
            assert forall|side: Seq<char>|
                (side == "positive"@ || side == "negative"@) && has_key(
                    entries,
                    side,
                ) implies only_gains(
                value_at(entries, side)->Some_0,
                (#[trigger] value_at(after, side))->Some_0,
            ) by {
                lemma_items_ordered(entries, side);
                if let Some(JsonView::Object(buckets)) = value_at(entries, side) {
                    lemma_filling_only_gains(buckets);
                }
            }
        }
        if kind == "summary"@ && has_key(entries, "quantileValues"@) {
            lemma_items_ordered(entries, "quantileValues"@);
            if let Some(JsonView::Array(items)) = value_at(entries, "quantileValues"@) {
                assert forall|i: int| 0 <= i < items.len() implies only_gains(
                    items[i],
                    #[trigger] quantiles_read(items)[i],
                ) by {
                    assert(keys_ordered(items[i]));
                    if let JsonView::Object(members) = items[i] {
                        lemma_filling_only_gains(members);
                    }
                }
            }
            assert(value_at(after, "quantileValues"@) == Some(
                field_read("quantileValues"@, value_at(entries, "quantileValues"@)->Some_0, kind),
            ));
        }
    }
}

/// The number under `asInt` that is written as its decimal text is read as that
/// number, in a data point of any kind.
pub proof fn lemma_number_of_a_point_is_kept(entries: Entries, kind: Seq<char>, n: i64)
    requires
        ordered(entries),
        value_at(entries, "asInt"@) == Some(JsonView::String(signed_decimal(n as int))),
    ensures
        match point_read(JsonView::Object(entries), kind) {
            JsonView::Object(after) => match value_at(after, "asInt"@) {
                Some(number) => writes_whole(number, n as int),
                None => false,
            },
            _ => false,
        },
{
    lemma_point_keeps_fields(entries, kind);
    lemma_number_reads_back(n);
}

/// No number that is written as its decimal text is lost from a request, wherever
/// its data point stands.
pub proof fn lemma_no_number_is_lost(
    json: JsonView,
    resource: int,
    scope: int,
    metric: int,
    kind: Seq<char>,
    point: int,
    n: i64,
)
    requires
        is_kind(kind),
        0 <= resource < members(json, "resourceMetrics"@).len(),
        0 <= scope < members(
            members(json, "resourceMetrics"@)[resource],
            "scopeMetrics"@,
        ).len(),
        0 <= metric < metrics_at(json, resource, scope).len(),
        0 <= point < points_under(metrics_at(json, resource, scope)[metric], kind).len(),
        match points_under(metrics_at(json, resource, scope)[metric], kind)[point] {
            JsonView::Object(entries) => ordered(entries) && value_at(entries, "asInt"@) == Some(
                JsonView::String(signed_decimal(n as int)),
            ),
            _ => false,
        },
    ensures
        match points_under(metrics_at(request_read(json), resource, scope)[metric], kind)[point] {
            JsonView::Object(after) => match value_at(after, "asInt"@) {
                Some(number) => writes_whole(number, n as int),
                None => false,
            },
            _ => false,
        },
{
    let points = points_under(metrics_at(json, resource, scope)[metric], kind);
    lemma_every_point_is_read(json, resource, scope, metric, kind);
    if let JsonView::Object(entries) = points[point] {
        lemma_number_of_a_point_is_kept(entries, kind, n);
    }
}

/// An exemplar that is made to fit the decoder keeps every field, but for the
/// number that moves into an object under `value`: the one under `asDouble`, or
/// else the one under `asInt`, unless there is something under `value` already.
pub proof fn lemma_exemplar_keeps_fields(entries: Entries)
    requires
        ordered(entries),
    ensures
        match exemplar_read(JsonView::Object(entries)) {
            JsonView::Object(after) => {
                &&& forall|key: Seq<char>|
                    has_key(entries, key) && key != "asInt"@ && key != "asDouble"@ && key
                        != "value"@ ==> #[trigger] value_at(after, key) == value_at(entries, key)
                &&& match (
                    value_at(entries, "value"@),
                    value_at(entries, "asDouble"@),
                    value_at(entries, "asInt"@),
                ) {
                    (Some(value), _, _) => value_at(after, "value"@) == Some(value),
                    (None, Some(number), _) => value_at(after, "value"@) == Some(
                        JsonView::Object(seq![("asDouble"@, number)]),
                    ),
                    (None, None, Some(JsonView::Number(number))) => value_at(after, "value"@)
                        == Some(JsonView::Object(seq![("asInt"@, JsonView::Number(number))])),
                    (None, None, Some(_)) => has_key(after, "value"@),
                    (None, None, None) => value_at(after, "value"@) is None,
                }
            },
            _ => false,
        },
{
    reveal_strlit("asInt");
    reveal_strlit("asDouble");
    reveal_strlit("value");
    assert("asInt"@.len() == 5 && "asInt"@[0] == 'a');
    assert("asDouble"@.len() == 8);
    assert("value"@.len() == 5 && "value"@[0] == 'v');
    let read = as_int_read(entries);
    let wrapped = number_wrapped(read);
    lemma_as_int_read(entries);
    lemma_exemplar_is_complete(entries);
    if !has_key(read, "value"@) {
        if let Some(number) = value_at(read, "asDouble"@) {
            lemma_removed(read, "asDouble"@);
            lemma_put(
                removed(read, "asDouble"@),
                "value"@,
                JsonView::Object(seq![("asDouble"@, number)]),
            );
        } else if let Some(number) = value_at(read, "asInt"@) {
            lemma_removed(read, "asInt"@);
            lemma_put(
                removed(read, "asInt"@),
                "value"@,
                JsonView::Object(seq![("asInt"@, number)]),
            );
        }
    }
    let first = defaulted(wrapped, "filteredAttributes"@, no_items());
    let second = defaulted(first, "timeUnixNano"@, text_json("0"@));
    let third = defaulted(second, "spanId"@, text_json(""@));
    lemma_defaulted(wrapped, "filteredAttributes"@, no_items());
    lemma_defaulted(first, "timeUnixNano"@, text_json("0"@));
    lemma_defaulted(second, "spanId"@, text_json(""@));
    lemma_defaulted(third, "traceId"@, text_json(""@));
    let after = defaulted(third, "traceId"@, text_json(""@));
    assert forall|key: Seq<char>|
        has_key(entries, key) && key != "asInt"@ && key != "asDouble"@ && key
            != "value"@ implies #[trigger] value_at(after, key) == value_at(entries, key) by {
        assert(value_at(read, key) == value_at(entries, key));
        assert(value_at(wrapped, key) == value_at(read, key));
        assert(has_key(wrapped, key));
    }
}

/// The number of an exemplar that is written as its decimal text under `asInt` is
/// read as that number, where the exemplar has no other.
pub proof fn lemma_number_of_an_exemplar_is_kept(entries: Entries, n: i64)
    requires
        ordered(entries),
        !has_key(entries, "value"@),
        !has_key(entries, "asDouble"@),
        value_at(entries, "asInt"@) == Some(JsonView::String(signed_decimal(n as int))),
    ensures
        match exemplar_read(JsonView::Object(entries)) {
            JsonView::Object(after) => match value_at(after, "value"@) {
                Some(JsonView::Object(wrapped)) => wrapped.len() == 1 && wrapped[0].0 == "asInt"@
                    && writes_whole(wrapped[0].1, n as int),
                _ => false,
            },
            _ => false,
        },
{
    lemma_exemplar_is_complete(entries);
    lemma_number_reads_back(n);
}

/// A field is as it was, or, where it was missing, what proto3 leaves out: a zero
/// or nothing.
pub open spec fn kept_or(entries: Entries, after: Entries, key: Seq<char>, zero: JsonView) -> bool {
    value_at(after, key) == match value_at(entries, key) {
        Some(value) => Some(value),
        None => Some(zero),
    }
}

/// The number zero in JSON, without a fraction.
pub open spec fn zero_whole() -> JsonView {
    JsonView::Number(crate::json::Number::PosInt(0))
}

/// The number zero in JSON, as a double.
pub open spec fn zero_fraction() -> JsonView {
    JsonView::Number(crate::json::Number::Float(crate::double::Double { bits: 0 }))
}

/// Filling in the fields of a point of an exponential histogram fills in zeros: the
/// text `0` for a number of sixty-four bits, a number for the others, and an empty
/// array for a list.
pub proof fn lemma_missing_fields_are_zero(entries: Entries)
    requires
        ordered(entries),
    ensures
        kept_or(
            entries,
            exponential_defaults(entries),
            "attributes"@,
            JsonView::Array(Seq::empty()),
        ),
        kept_or(
            entries,
            exponential_defaults(entries),
            "startTimeUnixNano"@,
            JsonView::String("0"@),
        ),
        kept_or(entries, exponential_defaults(entries), "timeUnixNano"@, JsonView::String("0"@)),
        kept_or(entries, exponential_defaults(entries), "count"@, JsonView::String("0"@)),
        kept_or(entries, exponential_defaults(entries), "scale"@, zero_whole()),
        kept_or(entries, exponential_defaults(entries), "zeroCount"@, JsonView::String("0"@)),
        kept_or(entries, exponential_defaults(entries), "zeroThreshold"@, zero_fraction()),
        kept_or(entries, exponential_defaults(entries), "flags"@, zero_whole()),
        kept_or(
            entries,
            exponential_defaults(entries),
            "exemplars"@,
            JsonView::Array(Seq::empty()),
        ),
{
    reveal_strlit("attributes");
    reveal_strlit("startTimeUnixNano");
    reveal_strlit("timeUnixNano");
    reveal_strlit("count");
    reveal_strlit("scale");
    reveal_strlit("zeroCount");
    reveal_strlit("zeroThreshold");
    reveal_strlit("flags");
    reveal_strlit("exemplars");
    assert("attributes"@.len() == 10 && "startTimeUnixNano"@.len() == 17);
    assert("timeUnixNano"@.len() == 12 && "zeroThreshold"@.len() == 13);
    assert("count"@.len() == 5 && "count"@[0] == 'c');
    assert("scale"@.len() == 5 && "scale"@[0] == 's');
    assert("flags"@.len() == 5 && "flags"@[0] == 'f');
    assert("zeroCount"@.len() == 9 && "zeroCount"@[0] == 'z');
    assert("exemplars"@.len() == 9 && "exemplars"@[0] == 'e');
    let a = defaulted(entries, "attributes"@, no_items());
    let b = defaulted(a, "startTimeUnixNano"@, text_json("0"@));
    let c = defaulted(b, "timeUnixNano"@, text_json("0"@));
    let d = defaulted(c, "count"@, text_json("0"@));
    let e = defaulted(d, "scale"@, zero_int());
    let f = defaulted(e, "zeroCount"@, text_json("0"@));
    let g = defaulted(f, "zeroThreshold"@, zero_double());
    let h = defaulted(g, "flags"@, zero_int());
    lemma_defaulted(entries, "attributes"@, no_items());
    lemma_defaulted(a, "startTimeUnixNano"@, text_json("0"@));
    lemma_defaulted(b, "timeUnixNano"@, text_json("0"@));
    lemma_defaulted(c, "count"@, text_json("0"@));
    lemma_defaulted(d, "scale"@, zero_int());
    lemma_defaulted(e, "zeroCount"@, text_json("0"@));
    lemma_defaulted(f, "zeroThreshold"@, zero_double());
    lemma_defaulted(g, "flags"@, zero_int());
    lemma_defaulted(h, "exemplars"@, no_items());
}

/// Filling in buckets, quantiles and exemplars fills in zeros too.
pub proof fn lemma_missing_members_are_zero(entries: Entries)
    requires
        ordered(entries),
    ensures
        kept_or(entries, buckets_filled(entries), "offset"@, zero_whole()),
        kept_or(entries, buckets_filled(entries), "bucketCounts"@, JsonView::Array(Seq::empty())),
        match quantile_read(JsonView::Object(entries)) {
            JsonView::Object(after) => kept_or(entries, after, "quantile"@, zero_fraction())
                && kept_or(entries, after, "value"@, zero_fraction()),
            _ => false,
        },
        match exemplar_read(JsonView::Object(entries)) {
            JsonView::Object(after) => {
                &&& kept_or(
                    entries,
                    after,
                    "filteredAttributes"@,
                    JsonView::Array(Seq::empty()),
                )
                &&& kept_or(entries, after, "timeUnixNano"@, JsonView::String("0"@))
                &&& kept_or(entries, after, "spanId"@, JsonView::String(Seq::empty()))
                &&& kept_or(entries, after, "traceId"@, JsonView::String(Seq::empty()))
            },
            _ => false,
        },
{
    reveal_strlit("offset");
    reveal_strlit("bucketCounts");
    reveal_strlit("quantile");
    reveal_strlit("value");
    reveal_strlit("asInt");
    reveal_strlit("asDouble");
    reveal_strlit("filteredAttributes");
    reveal_strlit("timeUnixNano");
    reveal_strlit("spanId");
    reveal_strlit("traceId");
    reveal_strlit("");
    assert("offset"@.len() == 6 && "bucketCounts"@.len() == 12);
    assert("quantile"@.len() == 8 && "value"@.len() == 5 && "value"@[0] == 'v');
    assert("asInt"@.len() == 5 && "asInt"@[0] == 'a' && "asDouble"@.len() == 8);
    assert("filteredAttributes"@.len() == 18 && "timeUnixNano"@.len() == 12);
    assert("spanId"@.len() == 6 && "traceId"@.len() == 7);
    assert(""@ =~= Seq::empty());
    lemma_defaulted(entries, "offset"@, zero_int());
    lemma_defaulted(defaulted(entries, "offset"@, zero_int()), "bucketCounts"@, no_items());
    lemma_defaulted(entries, "quantile"@, zero_double());
    lemma_defaulted(
        defaulted(entries, "quantile"@, zero_double()),
        "value"@,
        zero_double(),
    );
    let read = as_int_read(entries);
    let wrapped = number_wrapped(read);
    lemma_as_int_read(entries);
    lemma_number_wrapped(read);
    lemma_wrapped_others(read);
    let first = defaulted(wrapped, "filteredAttributes"@, no_items());
    let second = defaulted(first, "timeUnixNano"@, text_json("0"@));
    let third = defaulted(second, "spanId"@, text_json(""@));
    lemma_defaulted(wrapped, "filteredAttributes"@, no_items());
    lemma_defaulted(first, "timeUnixNano"@, text_json("0"@));
    lemma_defaulted(second, "spanId"@, text_json(""@));
    lemma_defaulted(third, "traceId"@, text_json(""@));
}

/// Moving the number of an exemplar leaves every other field.
proof fn lemma_wrapped_others(read: Entries)
    requires
        ordered(read),
    ensures
        forall|key: Seq<char>|
            key != "asInt"@ && key != "asDouble"@ && key != "value"@ ==> #[trigger] value_at(
                number_wrapped(read),
                key,
            ) == value_at(read, key),
{
    if !has_key(read, "value"@) {
        if let Some(number) = value_at(read, "asDouble"@) {
            lemma_removed(read, "asDouble"@);
            lemma_put(
                removed(read, "asDouble"@),
                "value"@,
                JsonView::Object(seq![("asDouble"@, number)]),
            );
        } else if let Some(number) = value_at(read, "asInt"@) {
            lemma_removed(read, "asInt"@);
            lemma_put(
                removed(read, "asInt"@),
                "value"@,
                JsonView::Object(seq![("asInt"@, number)]),
            );
        }
    }
}

/// A field that a point of an exponential histogram lacks comes out as a zero.
pub open spec fn filled_with(
    entries: Entries,
    after: Entries,
    key: Seq<char>,
    zero: JsonView,
) -> bool {
    !has_key(entries, key) ==> value_at(after, key) == Some(zero)
}

/// A point of an exponential histogram comes out with a zero for every field that
/// it lacks.
pub proof fn lemma_point_is_filled_with_zeros(entries: Entries)
    requires
        ordered(entries),
    ensures
        match point_read(JsonView::Object(entries), "exponentialHistogram"@) {
            JsonView::Object(after) => {
                let none = JsonView::Array(Seq::empty());
                let zero = JsonView::String("0"@);
                &&& filled_with(entries, after, "attributes"@, none)
                &&& filled_with(entries, after, "startTimeUnixNano"@, zero)
                &&& filled_with(entries, after, "timeUnixNano"@, zero)
                &&& filled_with(entries, after, "count"@, zero)
                &&& filled_with(entries, after, "scale"@, zero_whole())
                &&& filled_with(entries, after, "zeroCount"@, zero)
                &&& filled_with(entries, after, "zeroThreshold"@, zero_fraction())
                &&& filled_with(entries, after, "flags"@, zero_whole())
                &&& filled_with(entries, after, "exemplars"@, none)
            },
            _ => false,
        },
{
    let common = common_read(entries);
    let filled = exponential_defaults(common);
    lemma_names_differ();
    lemma_common_fields(entries);
    lemma_missing_fields_are_zero(common);
    lemma_exponential_defaults(common);
    lemma_side_read(filled, "positive"@);
    lemma_side_read(buckets_read(filled, "positive"@), "negative"@);
    assert forall|key: Seq<char>| !has_key(entries, key) implies #[trigger] value_at(common, key)
        is None by {
        assert(value_at(entries, key) is None);
    }
    assert(value_at(filled, "attributes"@) is Some);
    assert(value_at(filled, "startTimeUnixNano"@) is Some);
    assert(value_at(filled, "timeUnixNano"@) is Some);
    assert(value_at(filled, "count"@) is Some);
    assert(value_at(filled, "scale"@) is Some);
    assert(value_at(filled, "zeroCount"@) is Some);
    assert(value_at(filled, "zeroThreshold"@) is Some);
    assert(value_at(filled, "flags"@) is Some);
    assert(value_at(filled, "exemplars"@) is Some);
}

/// Items are made to fit one for one.
pub proof fn lemma_items_are_read_one_for_one(items: Seq<JsonView>, kind: Seq<char>, i: int)
    requires
        0 <= i < items.len(),
    ensures
        exemplars_read(items).len() == items.len(),
        exemplars_read(items)[i] == exemplar_read(items[i]),
        quantiles_read(items).len() == items.len(),
        quantiles_read(items)[i] == quantile_read(items[i]),
        points_read(items, kind).len() == items.len(),
        points_read(items, kind)[i] == point_read(items[i], kind),
{
}

/// Data points are counted under each kind, and added up over metrics, scopes and
/// resources.
pub proof fn lemma_points_add_up(json: JsonView, i: int)
    ensures
        metric_points(json) == points_under(json, "gauge"@).len() + points_under(json, "sum"@).len()
            + points_under(json, "histogram"@).len() + points_under(
            json,
            "exponentialHistogram"@,
        ).len() + points_under(json, "summary"@).len(),
        scope_counts(json).len() == members(json, "metrics"@).len(),
        0 <= i < members(json, "metrics"@).len() ==> scope_counts(json)[i] == metric_points(
            members(json, "metrics"@)[i],
        ),
        resource_counts(json).len() == members(json, "scopeMetrics"@).len(),
        0 <= i < members(json, "scopeMetrics"@).len() ==> resource_counts(json)[i] == total(
            scope_counts(members(json, "scopeMetrics"@)[i]),
        ),
        request_counts(json).len() == members(json, "resourceMetrics"@).len(),
        0 <= i < members(json, "resourceMetrics"@).len() ==> request_counts(json)[i] == total(
            resource_counts(members(json, "resourceMetrics"@)[i]),
        ),
        points_in(json) == total(request_counts(json)),
{
}

/// A sum grows by what is added to it.
pub proof fn lemma_totals(ns: Seq<nat>, n: nat)
    ensures
        total(Seq::empty()) == 0,
        total(ns.push(n)) == total(ns) + n,
{
    assert(ns.push(n).drop_last() =~= ns);
}

} // verus!
