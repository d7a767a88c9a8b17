//! Events as lines that people read.
use crate::double::Double;
use crate::event::timestamp::{format_timestamp, stamp_text, utc};
use crate::event::{EventView, MetricEvent};
use crate::json::Entries;
use crate::text::{decimal, join, joined, push_decimal, texts};
use vstd::prelude::*;

verus! {

/// The number that a line shows: the value of a gauge or a sum, and the sum of the
/// others.
pub open spec fn shown_number(event: EventView) -> Double {
    if event.metric_type.scalar() {
        event.value
    } else {
        event.sum
    }
}

/// What a line says of the number of an event, whose text is given.
pub open spec fn value_part(event: EventView, number: Seq<char>) -> Seq<char> {
    if event.metric_type.scalar() {
        number
    } else {
        "count="@ + decimal(event.count as nat) + " sum="@ + number
    }
}

/// Each attribute as `key=value`, the texts of the values given.
pub open spec fn label_parts(attributes: Entries, values: Seq<Seq<char>>) -> Seq<Seq<char>> {
    Seq::new(attributes.len(), |i: int| attributes[i].0 + "="@ + values[i])
}

/// What a line says of the attributes; they come behind a blank, where there are
/// any.
pub open spec fn labels_part(labels: Seq<char>) -> Seq<char> {
    if labels.len() == 0 {
        labels
    } else {
        " "@ + labels
    }
}

/// An event as a line: when, where, what, and the attributes. The moment is in
/// UTC.
pub open spec fn text_line(
    event: EventView,
    number: Seq<char>,
    values: Seq<Seq<char>>,
) -> Seq<char> {
    stamp_text(event.timestamp as nat, 0) + " "@ + event.service_name + " "@ + event.metric_name
        + " "@ + event.metric_type.name() + " "@ + value_part(event, number) + labels_part(
        joined(label_parts(event.attributes, values), " "@),
    )
}

impl MetricEvent {
    /// The attributes as `key=value`, with the texts of their values.
    fn labels(&self, values: &Vec<String>) -> (r: Vec<String>)
        requires
            values@.len() == self@.attributes.len(),
        ensures
            texts(r@) == label_parts(self@.attributes, texts(values@)),
    {
        let mut r: Vec<String> = Vec::new();
        let mut i: usize = 0;
        while i < values.len()
            invariant
                i <= values@.len(),
                values@.len() == self@.attributes.len(),
                r@.len() == i,
                forall|j: int|
                    0 <= j < i ==> (#[trigger] r@[j])@ == self@.attributes[j].0 + "="@
                        + values@[j]@,
            decreases values@.len() - i,
        {
            let (key, _) = self.attributes.entry(i);
            let mut label = key.clone();
            label.append("=");
            label.append(values[i].as_str());
            r.push(label);
            i += 1;
        }
        assert(texts(r@) =~= label_parts(self@.attributes, texts(values@)));
        r
    }

    /// The number that the line shows.
    pub fn line_number(&self) -> (r: Double)
        ensures
            r == shown_number(self@),
    {
        if self.metric_type.is_scalar() {
            self.value
        } else {
            self.sum
        }
    }

    /// The event as one line, moments in UTC. `number` is the text of
    /// [`MetricEvent::line_number`]; `values` are the texts of the values of the
    /// attributes.
    pub fn to_text_line(&self, number: &str, values: &Vec<String>) -> (r: String)
        requires
            values@.len() == self@.attributes.len(),
        ensures
            r@ == text_line(self@, number@, texts(values@)),
    {
        let labels = self.labels(values);
        let labels = join(&labels, " ");
        let stamp = format_timestamp(self.timestamp, utc());
        let mut line = stamp.as_str().to_owned();
        line.append(" ");
        line.append(&*self.service_name);
        line.append(" ");
        line.append(&*self.metric_name);
        line.append(" ");
        line.append(self.metric_type.as_str());
        line.append(" ");
        let ghost before = line@;
        if !self.metric_type.is_scalar() {
            line.append("count=");
            push_decimal(&mut line, self.count);
            line.append(" sum=");
        }
        line.append(number);
        assert(line@ =~= before + value_part(self@, number@));
        let ghost before = line@;
        if !labels.as_str().is_empty() {
            line.append(" ");
        }
        line.append(labels.as_str());
        assert(line@ =~= before + labels_part(labels@));
        line
    }
}

} // verus!
