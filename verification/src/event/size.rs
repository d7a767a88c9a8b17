//! How much room an event takes up once it is written out.
use crate::count::{capped, lemma_total_next, times, total};
use crate::double::Double;
use crate::event::{blank_event, exemplar_views, EventView, ExemplarView, MetricEvent, Quantile};
use crate::json::{
    entry_sizes, has_key, lemma_rank_splits, put, rank, size_of, Entries, JsonMap, JsonView,
};
use crate::text::{byte_len, bytes_in};
use vstd::prelude::*;

verus! {

/// About how many bytes attributes take up.
pub open spec fn attributes_size(attributes: Entries) -> nat {
    entry_sizes(attributes) + 2
}

/// About how many bytes an exemplar takes up.
pub open spec fn exemplar_size(exemplar: ExemplarView) -> nat {
    100 + byte_len(exemplar.trace_id) + byte_len(exemplar.span_id) + attributes_size(
        exemplar.attributes,
    )
}

/// About how many bytes each of some exemplars takes up.
pub open spec fn exemplar_sizes(exemplars: Seq<ExemplarView>) -> Seq<nat> {
    exemplars.map_values(|exemplar: ExemplarView| exemplar_size(exemplar))
}

impl EventView {
    /// The bytes of the texts that every event has.
    pub open spec fn names_size(self) -> nat {
        byte_len(self.metric_name) + byte_len(self.metric_unit) + byte_len(self.metric_description)
            + byte_len(self.service_name) + byte_len(self.scope_name) + byte_len(
            self.scope_version,
        )
    }

    /// How many numbers there are in the arrays.
    pub open spec fn array_numbers(self) -> nat {
        self.bucket_counts.len() + self.explicit_bounds.len() + self.positive_bucket_counts.len()
            + self.negative_bucket_counts.len() + self.quantiles.len() * 2
    }

    /// About how many bytes the further columns take up.
    pub open spec fn extra_size(self) -> nat {
        entry_sizes(self.fields) + match self.shared {
            Some(shared) => entry_sizes(shared),
            None => 0,
        }
    }

    /// About how many bytes the event takes up as one compact row: its texts as
    /// long as they are, twenty bytes for each number in an array, and a hundred
    /// for the columns of fixed size.
    pub open spec fn size(self) -> nat {
        self.names_size() + attributes_size(self.resource_attributes) + attributes_size(
            self.attributes,
        ) + 20 * self.array_numbers() + total(exemplar_sizes(self.exemplars)) + self.extra_size()
            + 100
    }
}

/// About how many bytes attributes take up.
fn attributes_bytes(attributes: &JsonMap) -> (r: usize)
    ensures
        r == capped(attributes_size(attributes@)),
{
    attributes.entries_size().saturating_add(2)
}

impl MetricEvent {
    /// About how many bytes the exemplars take up.
    fn exemplars_bytes(&self) -> (r: usize)
        ensures
            r == capped(total(exemplar_sizes(self@.exemplars))),
    {
        let ghost sizes = exemplar_sizes(self@.exemplars);
        let mut sum: usize = 0;
        let mut i: usize = 0;
        assert(sizes.take(0) =~= Seq::empty());
        while i < self.exemplars.len()
            invariant
                i <= self.exemplars@.len(),
                sizes == exemplar_sizes(exemplar_views(self.exemplars@)),
                sum == capped(total(sizes.take(i as int))),
            decreases self.exemplars@.len() - i,
        {
            let exemplar = &self.exemplars[i];
            proof {
                lemma_total_next(sizes, i as int);
                assert(sizes[i as int] == exemplar_size(exemplar@));
            }
            sum = sum.saturating_add(100).saturating_add(
                bytes_in(exemplar.trace_id.as_str()),
            ).saturating_add(bytes_in(exemplar.span_id.as_str())).saturating_add(
                attributes_bytes(&exemplar.attributes),
            );
            i += 1;
        }
        assert(sizes.take(i as int) =~= sizes);
        sum
    }

    /// The bytes of the texts that every event has.
    fn names_bytes(&self) -> (r: usize)
        ensures
            r == capped(self@.names_size()),
    {
        bytes_in(&*self.metric_name).saturating_add(bytes_in(&*self.metric_unit)).saturating_add(
            bytes_in(&*self.metric_description),
        ).saturating_add(bytes_in(&*self.service_name)).saturating_add(
            bytes_in(&*self.scope_name),
        ).saturating_add(bytes_in(&*self.scope_version))
    }

    /// How many numbers there are in the arrays.
    fn numbers_in_arrays(&self) -> (r: usize)
        ensures
            r == capped(self@.array_numbers()),
    {
        self.bucket_counts.len().saturating_add(self.explicit_bounds.len()).saturating_add(
            self.positive_bucket_counts.len(),
        ).saturating_add(self.negative_bucket_counts.len()).saturating_add(
            times(self.quantiles.len(), 2),
        )
    }

    /// About how many bytes the event takes up as one compact row, for batches
    /// of a certain size; as far as a `usize` counts.
    pub fn estimated_size(&self) -> (r: usize)
        ensures
            r == capped(self@.size()),
    {
        let names: usize = self.names_bytes();
        let arrays: usize = times(self.numbers_in_arrays(), 20);
        let exemplars: usize = self.exemplars_bytes();
        let own: usize = self.fields.entries_size();
        let shared: usize = match &self.shared {
            Some(shared) => shared.entries_size(),
            None => 0,
        };
        let resource: usize = attributes_bytes(&self.resource_attributes);
        let labels: usize = attributes_bytes(&self.attributes);
        names.saturating_add(resource).saturating_add(labels).saturating_add(
            arrays,
        ).saturating_add(exemplars).saturating_add(own).saturating_add(shared).saturating_add(100)
    }
}

/// No event takes up less than one with every field at its default.
pub proof fn lemma_blank_event_is_smallest(event: EventView)
    ensures
        blank_event().size() == 104,
        event.size() >= 104,
{
    let empty = Seq::<char>::empty();
    assert(byte_len(empty) == 0);
    assert(exemplar_sizes(blank_event().exemplars) =~= Seq::empty());
}

/// One entry more, wherever it stands, adds its own bytes.
proof fn lemma_entry_added(entries: Entries, at: int, entry: (Seq<char>, JsonView))
    requires
        0 <= at <= entries.len(),
    ensures
        entry_sizes(entries.insert(at, entry)) == entry_sizes(entries) + byte_len(entry.0)
            + size_of(entry.1) + 4,
    decreases entries.len(),
{
    let after = entries.insert(at, entry);
    let n = entries.len() as int;
    if at == n {
        assert(after.subrange(0, n) =~= entries);
    } else {
        let rest = entries.subrange(0, n - 1);
        assert(after.subrange(0, n) =~= rest.insert(at, entry));
        lemma_entry_added(rest, at, entry);
    }
}

/// A new key adds its bytes, those of its value, and four.
proof fn lemma_key_added(entries: Entries, key: Seq<char>, value: JsonView)
    requires
        !has_key(entries, key),
    ensures
        entry_sizes(put(entries, key, value)) == entry_sizes(entries) + byte_len(key) + size_of(
            value,
        ) + 4,
{
    lemma_rank_splits(entries, key);
    lemma_entry_added(entries, rank(entries, key) as int, (key, value));
}

/// A new field makes the event larger by the bytes of its key and of its value,
/// and four.
pub proof fn lemma_size_with_a_field(event: EventView, key: Seq<char>, value: JsonView)
    requires
        !has_key(event.fields, key),
    ensures
        (EventView { fields: put(event.fields, key, value), ..event }).size() == event.size()
            + byte_len(key) + size_of(value) + 4,
{
    lemma_key_added(event.fields, key, value);
}

/// A new attribute of the data point makes the event larger by the bytes of its
/// key and of its value, and four.
pub proof fn lemma_size_with_an_attribute(event: EventView, key: Seq<char>, value: JsonView)
    requires
        !has_key(event.attributes, key),
    ensures
        (EventView { attributes: put(event.attributes, key, value), ..event }).size()
            == event.size() + byte_len(key) + size_of(value) + 4,
{
    lemma_key_added(event.attributes, key, value);
}

/// Each further bucket count or bound makes the event larger by twenty bytes, and
/// each further quantile by forty.
pub proof fn lemma_size_with_a_number(
    event: EventView,
    count: u64,
    bound: Double,
    quantile: Quantile,
)
    ensures
        (EventView { bucket_counts: event.bucket_counts.push(count), ..event }).size()
            == event.size() + 20,
        (EventView { explicit_bounds: event.explicit_bounds.push(bound), ..event }).size()
            == event.size() + 20,
        (EventView {
            positive_bucket_counts: event.positive_bucket_counts.push(count),
            ..event
        }).size() == event.size() + 20,
        (EventView {
            negative_bucket_counts: event.negative_bucket_counts.push(count),
            ..event
        }).size() == event.size() + 20,
        (EventView { quantiles: event.quantiles.push(quantile), ..event }).size() == event.size()
            + 40,
{
}

/// Every text of an event counts with its bytes: without it the event is smaller by
/// just these.
pub proof fn lemma_size_of_the_names(event: EventView)
    ensures
        ({
            let none = Seq::<char>::empty();
            &&& event.size() == (EventView { metric_name: none, ..event }).size() + byte_len(
                event.metric_name,
            )
            &&& event.size() == (EventView { metric_unit: none, ..event }).size() + byte_len(
                event.metric_unit,
            )
            &&& event.size() == (EventView { metric_description: none, ..event }).size()
                + byte_len(event.metric_description)
            &&& event.size() == (EventView { service_name: none, ..event }).size() + byte_len(
                event.service_name,
            )
            &&& event.size() == (EventView { scope_name: none, ..event }).size() + byte_len(
                event.scope_name,
            )
            &&& event.size() == (EventView { scope_version: none, ..event }).size() + byte_len(
                event.scope_version,
            )
        }),
{
    assert(byte_len(Seq::<char>::empty()) == 0);
}

/// A new attribute of the resource, or a new shared column, makes the event larger by
/// the bytes of its key and of its value, and four.
pub proof fn lemma_size_with_shared_entries(event: EventView, key: Seq<char>, value: JsonView)
    ensures
        !has_key(event.resource_attributes, key) ==> (EventView {
            resource_attributes: put(event.resource_attributes, key, value),
            ..event
        }).size() == event.size() + byte_len(key) + size_of(value) + 4,
        event.shared is Some && !has_key(event.shared->Some_0, key) ==> (EventView {
            shared: Some(put(event.shared->Some_0, key, value)),
            ..event
        }).size() == event.size() + byte_len(key) + size_of(value) + 4,
        (EventView { shared: Some(Seq::empty()), ..event }).size() == (EventView {
            shared: None,
            ..event
        }).size(),
{
    if !has_key(event.resource_attributes, key) {
        lemma_key_added(event.resource_attributes, key, value);
    }
    if event.shared is Some && !has_key(event.shared->Some_0, key) {
        lemma_key_added(event.shared->Some_0, key, value);
    }
}

/// A further exemplar makes the event larger by a hundred bytes, its ids and its
/// attributes with two bytes around them.
pub proof fn lemma_size_with_an_exemplar(event: EventView, exemplar: ExemplarView)
    ensures
        (EventView { exemplars: event.exemplars.push(exemplar), ..event }).size() == event.size()
            + 100 + byte_len(exemplar.trace_id) + byte_len(exemplar.span_id) + entry_sizes(
            exemplar.attributes,
        ) + 2,
{
    let more = event.exemplars.push(exemplar);
    assert(exemplar_sizes(more).drop_last() =~= exemplar_sizes(event.exemplars));
    assert(exemplar_sizes(more).last() == exemplar_size(exemplar));
}

/// What a value is worth: null, booleans and numbers always the same, a text its bytes
/// and its quotes, an item what it is worth and one more, a member what its key and its
/// value are worth and four more, and two for the brackets.
pub proof fn lemma_size_of_values(
    text: Seq<char>,
    items: Seq<JsonView>,
    item: JsonView,
    entries: Entries,
    key: Seq<char>,
    number: crate::json::Number,
    b: bool,
)
    ensures
        size_of(JsonView::Null) == 4,
        size_of(JsonView::Bool(b)) == 5,
        size_of(JsonView::Number(number)) == 8,
        size_of(JsonView::String(text)) == byte_len(text) + 2,
        size_of(JsonView::Array(Seq::empty())) == 2,
        size_of(JsonView::Array(items.push(item))) == size_of(JsonView::Array(items)) + size_of(
            item,
        ) + 1,
        size_of(JsonView::Object(Seq::empty())) == 2,
        size_of(JsonView::Object(entries.push((key, item)))) == size_of(JsonView::Object(entries))
            + byte_len(key) + size_of(item) + 4,
{
    let more = items.push(item);
    assert(more.subrange(0, more.len() - 1) =~= items);
    let longer = entries.push((key, item));
    assert(longer.subrange(0, longer.len() - 1) =~= entries);
}

} // verus!
