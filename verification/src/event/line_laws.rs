//! What a line says, part by part.
use crate::event::calendar::{date_of, Date};
use crate::event::line::{label_parts, labels_part, shown_number, text_line, value_part};
use crate::event::timestamp::{date_text, offset_text, stamp_text, time_text};
use crate::event::{EventView, MetricType};
use crate::json::JsonView;
use crate::scan::{is_digit, pieces};
use crate::scan_laws::{lemma_decimal_digits, lemma_joined_push};
use crate::sink::health_laws::{lacks, lemma_next_piece, lemma_one_piece};
use crate::text::{decimal, digit, digits, joined};
use vstd::prelude::*;

verus! {

/// One attribute more is one blank, its key, an equals sign and its value more, at the
/// end of the line.
pub proof fn lemma_line_with_another_attribute(
    event: EventView,
    number: Seq<char>,
    values: Seq<Seq<char>>,
    key: Seq<char>,
    value: JsonView,
    text: Seq<char>,
)
    requires
        values.len() == event.attributes.len(),
    ensures
        text_line(
            (EventView { attributes: event.attributes.push((key, value)), ..event }),
            number,
            values.push(text),
        ) == text_line(event, number, values) + (seq![' '] + key + seq!['='] + text),
{
    let more = EventView { attributes: event.attributes.push((key, value)), ..event };
    let before = label_parts(event.attributes, values);
    let after = label_parts(more.attributes, values.push(text));
    let label = key + "="@ + text;
    reveal_strlit(" ");
    reveal_strlit("=");
    assert(" "@ =~= seq![' ']);
    assert("="@ =~= seq!['=']);
    assert(after =~= before.push(label));
    lemma_joined_push(before, label, " "@);
    lemma_labels_not_empty(before);
    let old = joined(before, " "@);
    let new = joined(after, " "@);
    assert(label.len() > 0);
    if before.len() == 0 {
        assert(old.len() == 0);
        assert(labels_part(new) =~= labels_part(old) + (seq![' '] + key + seq!['='] + text));
    } else {
        assert(old.len() > 0);
        assert(labels_part(new) =~= labels_part(old) + (seq![' '] + key + seq!['='] + text));
    }
    let front = stamp_text(event.timestamp as nat, 0) + " "@ + event.service_name + " "@
        + event.metric_name + " "@ + event.metric_type.name() + " "@ + value_part(event, number);
    assert(value_part(more, number) == value_part(event, number));
    assert(text_line(event, number, values) == front + labels_part(old));
    assert(text_line(more, number, values.push(text)) == front + labels_part(new));
    lemma_assoc(front, labels_part(old), seq![' '] + key + seq!['='] + text);
}

proof fn lemma_assoc(a: Seq<char>, b: Seq<char>, c: Seq<char>)
    ensures
        a + (b + c) == a + b + c,
{
    assert(a + (b + c) =~= a + b + c);
}

/// Labels one behind the other are some text, where there are any.
proof fn lemma_labels_not_empty(parts: Seq<Seq<char>>)
    requires
        forall|i: int| 0 <= i < parts.len() ==> (#[trigger] parts[i]).len() > 0,
    ensures
        parts.len() > 0 ==> joined(parts, " "@).len() > 0,
        parts.len() == 0 ==> joined(parts, " "@).len() == 0,
{
    if parts.len() > 0 {
        assert(parts[0].len() > 0);
    }
}

/// Digits hold no blank.
proof fn lemma_digits_lack_blanks(n: nat, width: nat)
    ensures
        lacks(digits(n, width), ' '),
    decreases width,
{
    if width > 0 {
        lemma_digits_lack_blanks(n / 10, (width - 1) as nat);
        assert(digit((n % 10) as int) as int == '0' as int + n % 10);
    }
}

/// A line without attributes, cut at its blanks, is the date, the time with its offset,
/// the service, the metric, the kind and the number of the event; for kinds that are no
/// single number, the count and the sum. Where the names hold no blanks.
pub proof fn lemma_line_is_read_part_by_part(event: EventView, number: Seq<char>)
    requires
        event.attributes.len() == 0,
        lacks(event.service_name, ' '),
        lacks(event.metric_name, ' '),
        lacks(number, ' '),
    ensures
        ({
            let parts = pieces(text_line(event, number, Seq::empty()), ' ');
            let secs = event.timestamp as int / 1_000_000_000;
            let nanos = event.timestamp as nat % 1_000_000_000;
            &&& parts[0] == date_text(date_of(secs / 86400))
            &&& parts[1] == time_text(secs % 86400, nanos) + offset_text(0)
            &&& parts[2] == event.service_name
            &&& parts[3] == event.metric_name
            &&& parts[4] == event.metric_type.name()
            &&& if event.metric_type.scalar() {
                parts.len() == 6 && parts[5] == number
            } else {
                parts.len() == 7 && parts[5] == "count="@ + decimal(event.count as nat) && parts[6]
                    == "sum="@ + number
            }
        }),
{
    let secs = event.timestamp as int / 1_000_000_000;
    let nanos = event.timestamp as nat % 1_000_000_000;
    let date = date_text(date_of(secs / 86400));
    let time = time_text(secs % 86400, nanos) + offset_text(0);
    let blank = seq![' '];
    let labels = label_parts(event.attributes, Seq::empty());
    reveal_strlit(" ");
    assert(" "@ =~= blank);
    assert(labels =~= Seq::empty());
    assert(joined(labels, " "@) =~= Seq::empty());
    assert(secs + 0 == secs);
    lemma_date_lacks_blanks(date_of(secs / 86400));
    lemma_time_lacks_blanks(secs % 86400, nanos);
    lemma_kind_lacks_blanks(event.metric_type);
    let one = date;
    let two = one + blank + time;
    let three = two + blank + event.service_name;
    let four = three + blank + event.metric_name;
    let five = four + blank + event.metric_type.name();
    lemma_one_piece(one, ' ');
    lemma_next_piece(one, time, ' ');
    lemma_next_piece(two, event.service_name, ' ');
    lemma_next_piece(three, event.metric_name, ' ');
    lemma_next_piece(four, event.metric_type.name(), ' ');
    lemma_assoc(one + blank, time_text(secs % 86400, nanos), offset_text(0));
    assert(stamp_text(event.timestamp as nat, 0) == two);
    let line = text_line(event, number, Seq::empty());
    let end = five + blank + value_part(event, number);
    assert(line =~= end);
    if event.metric_type.scalar() {
        lemma_next_piece(five, number, ' ');
    } else {
        let count = "count="@ + decimal(event.count as nat);
        let sum = "sum="@ + number;
        lemma_count_lacks_blanks(event.count as nat);
        reveal_strlit(" sum=");
        reveal_strlit("sum=");
        assert(" sum="@ =~= blank + "sum="@);
        assert forall|i: int| 0 <= i < sum.len() implies #[trigger] sum[i] != ' ' by {
            if i >= 4 {
                assert(sum[i] == number[i - 4]);
            }
        }
        let six = five + blank + count;
        lemma_next_piece(five, count, ' ');
        lemma_next_piece(six, sum, ' ');
        assert(value_part(event, number) =~= count + blank + sum);
        assert(end =~= six + blank + sum);
    }
}

/// Two texts without a character are without it together.
proof fn lemma_lacks_both(a: Seq<char>, b: Seq<char>, c: char)
    requires
        lacks(a, c),
        lacks(b, c),
    ensures
        lacks(a + b, c),
{
    let whole = a + b;
    assert forall|i: int| 0 <= i < whole.len() implies #[trigger] whole[i] != c by {
        if i < a.len() {
            assert(whole[i] == a[i]);
        } else {
            assert(whole[i] == b[i - a.len()]);
        }
    }
}

/// Dates hold no blank.
proof fn lemma_date_lacks_blanks(date: Date)
    ensures
        lacks(date_text(date), ' '),
{
    let y = digits(date.year as nat, 4);
    let m = digits(date.month as nat, 2);
    let d = digits(date.day as nat, 2);
    let dash = seq!['-'];
    lemma_digits_lack_blanks(date.year as nat, 4);
    lemma_digits_lack_blanks(date.month as nat, 2);
    lemma_digits_lack_blanks(date.day as nat, 2);
    lemma_lacks_both(y, dash, ' ');
    lemma_lacks_both(y + dash, m, ' ');
    lemma_lacks_both(y + dash + m, dash, ' ');
    lemma_lacks_both(y + dash + m + dash, d, ' ');
}

/// Times and offsets hold no blank.
proof fn lemma_time_lacks_blanks(seconds: int, nanos: nat)
    ensures
        lacks(time_text(seconds, nanos) + offset_text(0), ' '),
{
    let h = digits((seconds / 3600) as nat, 2);
    let m = digits((seconds / 60 % 60) as nat, 2);
    let s = digits((seconds % 60) as nat, 2);
    let f = digits(nanos, 9);
    let z = digits(0, 2);
    let c = seq![':'];
    let p = seq!['.'];
    let plus = seq!['+'];
    lemma_digits_lack_blanks((seconds / 3600) as nat, 2);
    lemma_digits_lack_blanks((seconds / 60 % 60) as nat, 2);
    lemma_digits_lack_blanks((seconds % 60) as nat, 2);
    lemma_digits_lack_blanks(nanos, 9);
    lemma_digits_lack_blanks(0, 2);
    lemma_lacks_both(h, c, ' ');
    lemma_lacks_both(h + c, m, ' ');
    lemma_lacks_both(h + c + m, c, ' ');
    lemma_lacks_both(h + c + m + c, s, ' ');
    lemma_lacks_both(h + c + m + c + s, p, ' ');
    lemma_lacks_both(h + c + m + c + s + p, f, ' ');
    lemma_lacks_both(plus, z, ' ');
    lemma_lacks_both(plus + z, c, ' ');
    lemma_lacks_both(plus + z + c, z, ' ');
    assert(offset_text(0) == plus + z + c + z);
    lemma_lacks_both(time_text(seconds, nanos), offset_text(0), ' ');
}

/// The names of kinds hold no blank.
proof fn lemma_kind_lacks_blanks(kind: MetricType)
    ensures
        lacks(kind.name(), ' '),
{
    reveal_strlit("Gauge");
    reveal_strlit("Sum");
    reveal_strlit("Histogram");
    reveal_strlit("ExponentialHistogram");
    reveal_strlit("Summary");
}

/// A count holds no blank.
proof fn lemma_count_lacks_blanks(n: nat)
    ensures
        lacks("count="@ + decimal(n), ' '),
{
    let digits = decimal(n);
    reveal_strlit("count=");
    lemma_decimal_digits(n);
    assert forall|i: int| 0 <= i < digits.len() implies #[trigger] digits[i] != ' ' by {
        assert(is_digit(digits[i]));
    }
    lemma_lacks_both("count="@, digits, ' ');
}

/// A line shows the value of a gauge or a sum, and the sum of any other kind.
pub proof fn lemma_shown_number(event: EventView)
    ensures
        match event.metric_type {
            MetricType::Gauge | MetricType::Sum => shown_number(event) == event.value,
            MetricType::Histogram | MetricType::ExponentialHistogram | MetricType::Summary => {
                shown_number(event) == event.sum
            },
        },
{
}

} // verus!
