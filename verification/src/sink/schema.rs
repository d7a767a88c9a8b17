//! The columns of the table, and their types.
use crate::event::row::FIXED_COLUMNS;
use crate::sink::clickhouse::{pairs, ClickhouseSink, Columns, SinkView};
use crate::text::{chars_of, join, joined, same_text, texts};
use vstd::prelude::*;

verus! {

/// The fixed columns from the third on, up to the quantiles.
pub const COLUMNS_HEAD: [(&'static str, &'static str); 25] = [
    ("metric_name", "LowCardinality(String)"),
    ("metric_type", "LowCardinality(String)"),
    ("metric_unit", "LowCardinality(String)"),
    ("metric_description", "String"),
    ("service_name", "LowCardinality(String)"),
    ("scope_name", "LowCardinality(String)"),
    ("scope_version", "LowCardinality(String)"),
    ("resource_attributes", "JSON"),
    ("attributes", "JSON"),
    ("value", "Float64"),
    ("temporality", "LowCardinality(String)"),
    ("is_monotonic", "UInt8"),
    ("count", "UInt64"),
    ("sum", "Float64"),
    ("min", "Float64"),
    ("max", "Float64"),
    ("bucket_counts", "Array(UInt64)"),
    ("explicit_bounds", "Array(Float64)"),
    ("scale", "Int32"),
    ("zero_count", "UInt64"),
    ("zero_threshold", "Float64"),
    ("positive_offset", "Int32"),
    ("positive_bucket_counts", "Array(UInt64)"),
    ("negative_offset", "Int32"),
    ("negative_bucket_counts", "Array(UInt64)"),
];

/// The quantiles of a summary, as two arrays of the same length.
pub const COLUMNS_QUANTILES: [(&'static str, &'static str); 2] = [
    ("quantiles.quantile", "Array(Float64)"),
    ("quantiles.value", "Array(Float64)"),
];

/// The fixed columns behind the moments of the exemplars.
pub const COLUMNS_TAIL: [(&'static str, &'static str); 5] = [
    ("exemplars.value", "Array(Float64)"),
    ("exemplars.trace_id", "Array(String)"),
    ("exemplars.span_id", "Array(String)"),
    ("exemplars.attributes", "Array(JSON)"),
    ("flags", "UInt32"),
];

/// The type of attributes: each key is a column of its own, with a type.
pub const ATTRIBUTES_TYPE: &'static str = "JSON";

/// The name that a zone has in the IANA database.
pub uninterp spec fn zone_name(zone: chrono_tz::Tz) -> Seq<char>;

/// `chrono_tz::Tz::name`: the name depends on the zone alone.
pub assume_specification[ chrono_tz::Tz::name ](zone: chrono_tz::Tz) -> (r: &'static str)
    ensures
        r@ == zone_name(zone),
;

/// What stands for a character in a literal between single quotes.
pub open spec fn escaped_char(c: char) -> Seq<char> {
    if c == '\\' {
        seq!['\\', '\\']
    } else if c == '\'' {
        seq!['\\', '\'']
    } else {
        seq![c]
    }
}

/// A text as it stands in a literal between single quotes.
pub open spec fn escaped(raw: Seq<char>) -> Seq<char>
    decreases raw.len(),
{
    if raw.len() == 0 {
        Seq::empty()
    } else {
        escaped(raw.drop_last()) + escaped_char(raw.last())
    }
}

/// A text for a literal between single quotes.
pub fn escape_literal(raw: &str) -> (r: String)
    ensures
        r@ == escaped(raw@),
{
    let mut out = String::new();
    let chars = chars_of(raw);
    let mut i: usize = 0;
    assert(chars@.take(0) =~= Seq::empty());
    while i < chars.len()
        invariant
            i <= chars@.len(),
            out@ == escaped(chars@.take(i as int)),
        decreases chars@.len() - i,
    {
        let c = chars[i];
        let ghost before = out@;
        if c == '\\' || c == '\'' {
            out.push('\\');
        }
        out.push(c);
        proof {
            assert(chars@.take(i + 1).drop_last() =~= chars@.take(i as int));
            assert(out@ =~= before + escaped_char(c));
        }
        i += 1;
    }
    assert(chars@.take(i as int) =~= chars@);
    out
}

/// What a literal between single quotes says: a backslash lets the character
/// behind it stand for itself. None where the literal would end before its end.
pub open spec fn unescaped(text: Seq<char>) -> Option<Seq<char>>
    decreases text.len(),
{
    if text.len() == 0 {
        Some(Seq::empty())
    } else if text[0] == '\'' {
        None
    } else if text[0] == '\\' {
        if text.len() == 1 {
            None
        } else {
            match unescaped(text.skip(2)) {
                Some(rest) => Some(seq![text[1]] + rest),
                None => None,
            }
        }
    } else {
        match unescaped(text.skip(1)) {
            Some(rest) => Some(seq![text[0]] + rest),
            None => None,
        }
    }
}

/// A literal says what went into it, and does not end before its end.
pub proof fn lemma_literal_reads_back(raw: Seq<char>)
    ensures
        unescaped(escaped(raw)) == Some(raw),
    decreases raw.len(),
{
    if raw.len() > 0 {
        let rest = raw.skip(1);
        lemma_escaped_front(raw);
        lemma_literal_reads_back(rest);
        let text = escaped(raw);
        let c = raw[0];
        if c == '\\' || c == '\'' {
            assert(text.skip(2) =~= escaped(rest));
        } else {
            assert(text.skip(1) =~= escaped(rest));
        }
        assert(seq![c] + rest =~= raw);
    } else {
        assert(raw =~= Seq::empty());
    }
}

/// Characters are escaped one by one, from the front too.
proof fn lemma_escaped_front(raw: Seq<char>)
    requires
        raw.len() > 0,
    ensures
        escaped(raw) == escaped_char(raw[0]) + escaped(raw.skip(1)),
    decreases raw.len(),
{
    let first = escaped_char(raw[0]);
    if raw.len() == 1 {
        assert(raw.drop_last() =~= Seq::empty());
        assert(raw.skip(1) =~= Seq::empty());
        assert(escaped(raw) =~= first + escaped(raw.skip(1)));
    } else {
        lemma_escaped_front(raw.drop_last());
        assert(raw.drop_last().skip(1) =~= raw.skip(1).drop_last());
        assert(escaped(raw) =~= first + escaped(raw.skip(1)));
    }
}

/// The type of a moment, to the nanosecond, and in a zone where one is set.
pub open spec fn moment_type(sink: SinkView) -> Seq<char> {
    match sink.timezone {
        Some(zone) => "DateTime64(9, '"@ + zone_name(zone) + "')"@,
        None => "DateTime64(9)"@,
    }
}

/// Paths with their types.
pub open spec fn typed_paths(types: Columns) -> Seq<Seq<char>> {
    types.map_values(|hint: (Seq<char>, Seq<char>)| hint.0 + " "@ + hint.1)
}

/// Paths that are left out.
pub open spec fn skipped_paths(paths: Seq<Seq<char>>) -> Seq<Seq<char>> {
    paths.map_values(|path: Seq<char>| "SKIP "@ + path)
}

/// Patterns of paths that are left out.
pub open spec fn skipped_patterns(patterns: Seq<Seq<char>>) -> Seq<Seq<char>> {
    patterns.map_values(|pattern: Seq<char>| "SKIP REGEXP '"@ + escaped(pattern) + "'"@)
}

/// What the type of the attributes of points and resources is told: first the
/// types of paths, then the paths to leave out, then the patterns to leave out.
pub open spec fn hint_list(sink: SinkView) -> Seq<Seq<char>> {
    typed_paths(sink.attribute_types) + skipped_paths(sink.attribute_skip) + skipped_patterns(
        sink.attribute_skip_regexp,
    )
}

/// The type of the attributes of points and resources.
pub open spec fn hinted_type(sink: SinkView) -> Seq<char> {
    if hint_list(sink).len() == 0 {
        ATTRIBUTES_TYPE@
    } else {
        ATTRIBUTES_TYPE@ + "("@ + joined(hint_list(sink), ", "@) + ")"@
    }
}

/// Whether a column takes the hints on attributes. Those of exemplars do not.
pub open spec fn is_hinted(name: Seq<char>) -> bool {
    name == "resource_attributes"@ || name == "attributes"@
}

/// The columns of the first part, the attributes with their type.
pub open spec fn head_columns(attributes: Seq<char>) -> Columns {
    COLUMNS_HEAD@.map_values(
        |column: (&'static str, &'static str)|
            (
                column.0@,
                if is_hinted(column.0@) {
                    attributes
                } else {
                    column.1@
                },
            ),
    )
}

/// Columns as they are.
pub open spec fn as_they_are(columns: Seq<(&'static str, &'static str)>) -> Columns {
    columns.map_values(|column: (&'static str, &'static str)| (column.0@, column.1@))
}

/// The fixed columns with their types, in the order of the table.
pub open spec fn fixed_types(sink: SinkView) -> Columns {
    let moment = moment_type(sink);
    seq![("timestamp"@, moment), ("start_timestamp"@, moment)] + head_columns(hinted_type(sink))
        + as_they_are(COLUMNS_QUANTILES@) + seq![
        ("exemplars.timestamp"@, "Array("@ + moment + ")"@),
    ] + as_they_are(COLUMNS_TAIL@)
}

/// The names of columns.
pub open spec fn names(columns: Columns) -> Seq<Seq<char>> {
    columns.map_values(|column: (Seq<char>, Seq<char>)| column.0)
}

/// The names of the fixed columns.
pub open spec fn fixed_names() -> Seq<Seq<char>> {
    FIXED_COLUMNS@.map_values(|name: &'static str| name@)
}

/// The columns that an insert gives values for, in their order.
pub open spec fn inserted_names(sink: SinkView) -> Seq<Seq<char>> {
    fixed_names() + names(sink.extra_columns)
}

/// The table has its fixed columns in the order in which rows are written.
pub proof fn lemma_table_follows_rows(sink: SinkView)
    ensures
        names(fixed_types(sink)) == fixed_names(),
{
    assert(names(fixed_types(sink)) =~= fixed_names());
}

fn push_pair(columns: &mut Vec<(String, String)>, name: &str, ty: &str)
    ensures
        pairs(final(columns)@) == pairs(old(columns)@).push((name@, ty@)),
{
    columns.push((name.to_owned(), ty.to_owned()));
    assert(pairs(columns@) =~= pairs(old(columns)@).push((name@, ty@)));
}

impl ClickhouseSink {
    /// The type of a moment.
    pub fn timestamp_type(&self) -> (r: String)
        ensures
            r@ == moment_type(self@),
    {
        match &self.timezone {
            Some(zone) => {
                let mut out = "DateTime64(9, '".to_owned();
                out.append((*zone).name());
                out.append("')");
                out
            },
            None => "DateTime64(9)".to_owned(),
        }
    }

    fn hints(&self) -> (r: Vec<String>)
        ensures
            texts(r@) == hint_list(self@),
    {
        let ghost typed = typed_paths(self@.attribute_types);
        let ghost skipped = skipped_paths(self@.attribute_skip);
        let ghost patterns = skipped_patterns(self@.attribute_skip_regexp);
        let mut r: Vec<String> = Vec::new();
        let mut i: usize = 0;
        assert(texts(r@) =~= typed.take(0));
        while i < self.attribute_types.len()
            invariant
                i <= self.attribute_types@.len(),
                typed == typed_paths(self@.attribute_types),
                texts(r@) == typed.take(i as int),
            decreases self.attribute_types@.len() - i,
        {
            let mut hint = self.attribute_types[i].0.clone();
            hint.append(" ");
            hint.append(self.attribute_types[i].1.as_str());
            let ghost before = r@;
            r.push(hint);
            assert(texts(r@) =~= texts(before).push(typed[i as int]));
            assert(texts(r@) =~= typed.take(i + 1));
            i += 1;
        }
        let mut i: usize = 0;
        assert(texts(r@) =~= typed + skipped.take(0));
        while i < self.attribute_skip.len()
            invariant
                i <= self.attribute_skip@.len(),
                skipped == skipped_paths(self@.attribute_skip),
                texts(r@) == typed + skipped.take(i as int),
            decreases self.attribute_skip@.len() - i,
        {
            let mut hint = "SKIP ".to_owned();
            hint.append(self.attribute_skip[i].as_str());
            let ghost before = r@;
            r.push(hint);
            assert(texts(r@) =~= texts(before).push(skipped[i as int]));
            assert(texts(r@) =~= typed + skipped.take(i + 1));
            i += 1;
        }
        let mut i: usize = 0;
        assert(texts(r@) =~= typed + skipped + patterns.take(0));
        while i < self.attribute_skip_regexp.len()
            invariant
                i <= self.attribute_skip_regexp@.len(),
                patterns == skipped_patterns(self@.attribute_skip_regexp),
                texts(r@) == typed + skipped + patterns.take(i as int),
            decreases self.attribute_skip_regexp@.len() - i,
        {
            let mut hint = "SKIP REGEXP '".to_owned();
            hint.append(escape_literal(self.attribute_skip_regexp[i].as_str()).as_str());
            hint.append("'");
            let ghost before = r@;
            r.push(hint);
            assert(texts(r@) =~= texts(before).push(patterns[i as int]));
            assert(texts(r@) =~= typed + skipped + patterns.take(i + 1));
            i += 1;
        }
        assert(texts(r@) =~= typed + skipped + patterns);
        r
    }

    /// The type of the attributes of points and resources.
    pub fn attributes_type(&self) -> (r: String)
        ensures
            r@ == hinted_type(self@),
    {
        let hints = self.hints();
        assert(texts(hints@).len() == hints@.len());
        let mut out = ATTRIBUTES_TYPE.to_owned();
        if hints.len() > 0 {
            out.append("(");
            out.append(join(&hints, ", ").as_str());
            out.append(")");
        }
        out
    }

    /// The fixed columns with their types, in the order of the table.
    pub fn base_columns(&self) -> (r: Vec<(String, String)>)
        ensures
            pairs(r@) == fixed_types(self@),
    {
        let moment = self.timestamp_type();
        let attributes = self.attributes_type();
        let mut columns: Vec<(String, String)> = Vec::new();
        push_pair(&mut columns, "timestamp", moment.as_str());
        push_pair(&mut columns, "start_timestamp", moment.as_str());
        let ghost start = pairs(columns@);
        let ghost head = head_columns(attributes@);
        assert(start =~= seq![("timestamp"@, moment@), ("start_timestamp"@, moment@)]);
        assert(start =~= start + head.take(0));
        let mut i: usize = 0;
        while i < 25
            invariant
                i <= 25,
                head == head_columns(attributes@),
                pairs(columns@) == start + head.take(i as int),
            decreases 25 - i,
        {
            let (name, ty) = COLUMNS_HEAD[i];
            if same_text(name, "resource_attributes") || same_text(name, "attributes") {
                push_pair(&mut columns, name, attributes.as_str());
            } else {
                push_pair(&mut columns, name, ty);
            }
            assert(pairs(columns@) =~= start + head.take(i + 1));
            i += 1;
        }
        push_pair(&mut columns, COLUMNS_QUANTILES[0].0, COLUMNS_QUANTILES[0].1);
        push_pair(&mut columns, COLUMNS_QUANTILES[1].0, COLUMNS_QUANTILES[1].1);
        let mut moments = "Array(".to_owned();
        moments.append(moment.as_str());
        moments.append(")");
        push_pair(&mut columns, "exemplars.timestamp", moments.as_str());
        push_pair(&mut columns, COLUMNS_TAIL[0].0, COLUMNS_TAIL[0].1);
        push_pair(&mut columns, COLUMNS_TAIL[1].0, COLUMNS_TAIL[1].1);
        push_pair(&mut columns, COLUMNS_TAIL[2].0, COLUMNS_TAIL[2].1);
        push_pair(&mut columns, COLUMNS_TAIL[3].0, COLUMNS_TAIL[3].1);
        push_pair(&mut columns, COLUMNS_TAIL[4].0, COLUMNS_TAIL[4].1);
        assert(pairs(columns@) =~= fixed_types(self@));
        columns
    }
}

/// The columns that the table must have: the fixed ones and the further ones.
pub open spec fn needed_names(sink: SinkView) -> Seq<Seq<char>> {
    names(fixed_types(sink)) + names(sink.extra_columns)
}

/// The paths that the type of the attributes should hold somewhere.
pub open spec fn hinted_paths(sink: SinkView) -> Seq<Seq<char>> {
    names(sink.attribute_types) + sink.attribute_skip
}

/// What the type of the attributes should hold somewhere: paths, and then
/// patterns.
pub open spec fn hinted_parts(sink: SinkView) -> Seq<Seq<char>> {
    hinted_paths(sink) + sink.attribute_skip_regexp
}

/// The name of the table that stores, under one that distributes.
pub open spec fn local_name(sink: SinkView) -> Seq<char> {
    sink.table + "_local"@
}

/// Puts the names of columns behind the others.
fn push_names(out: &mut Vec<String>, columns: &Vec<(String, String)>)
    ensures
        texts(final(out)@) == texts(old(out)@) + names(pairs(columns@)),
{
    let ghost all = names(pairs(columns@));
    let mut i: usize = 0;
    assert(texts(out@) =~= texts(old(out)@) + all.take(0));
    while i < columns.len()
        invariant
            i <= columns@.len(),
            all == names(pairs(columns@)),
            texts(out@) == texts(old(out)@) + all.take(i as int),
        decreases columns@.len() - i,
    {
        let ghost before = out@;
        out.push(columns[i].0.clone());
        assert(texts(out@) =~= texts(before).push(all[i as int]));
        assert(texts(out@) =~= texts(old(out)@) + all.take(i + 1));
        i += 1;
    }
    assert(all.take(i as int) =~= all);
}

/// Puts texts behind the others.
fn push_texts(out: &mut Vec<String>, list: &Vec<String>)
    ensures
        texts(final(out)@) == texts(old(out)@) + texts(list@),
{
    let mut i: usize = 0;
    assert(texts(out@) =~= texts(old(out)@) + texts(list@).take(0));
    while i < list.len()
        invariant
            i <= list@.len(),
            texts(out@) == texts(old(out)@) + texts(list@).take(i as int),
        decreases list@.len() - i,
    {
        let ghost before = out@;
        out.push(list[i].clone());
        assert(texts(out@) =~= texts(before).push(texts(list@)[i as int]));
        assert(texts(out@) =~= texts(old(out)@) + texts(list@).take(i + 1));
        i += 1;
    }
    assert(texts(list@).take(i as int) =~= texts(list@));
}

impl ClickhouseSink {
    /// What the type of the attributes should hold somewhere: the paths and the
    /// patterns that were set. Only such parts are looked for, since the store
    /// writes the type in its own way.
    pub fn attribute_hints(&self) -> (r: Vec<String>)
        ensures
            texts(r@) == hinted_parts(self@),
    {
        let mut out = self.path_hints();
        push_texts(&mut out, &self.attribute_skip_regexp);
        out
    }

    /// The paths that the type of the attributes should hold somewhere.
    pub(crate) fn path_hints(&self) -> (r: Vec<String>)
        ensures
            texts(r@) == hinted_paths(self@),
    {
        let mut out: Vec<String> = Vec::new();
        push_names(&mut out, &self.attribute_types);
        push_texts(&mut out, &self.attribute_skip);
        assert(texts(out@) =~= hinted_paths(self@));
        out
    }

    /// The columns that the table must have.
    pub fn expected_columns(&self) -> (r: Vec<String>)
        ensures
            texts(r@) == needed_names(self@),
    {
        let mut out: Vec<String> = Vec::new();
        push_names(&mut out, &self.base_columns());
        push_names(&mut out, &self.extra_columns);
        assert(texts(out@) =~= needed_names(self@));
        out
    }

    /// The names of the further columns.
    pub(crate) fn extra_names(&self) -> (r: Vec<String>)
        ensures
            texts(r@) == names(self@.extra_columns),
    {
        let mut out: Vec<String> = Vec::new();
        push_names(&mut out, &self.extra_columns);
        assert(texts(out@) =~= names(self@.extra_columns));
        out
    }

    /// The columns that an insert gives values for, in their order: those of
    /// [`FIXED_COLUMNS`] and then the further ones.
    pub fn insert_columns(&self) -> (r: Vec<String>)
        ensures
            texts(r@) == inserted_names(self@),
    {
        let ghost fixed = fixed_names();
        let mut out: Vec<String> = Vec::new();
        let mut i: usize = 0;
        assert(texts(out@) =~= fixed.take(0));
        while i < 35
            invariant
                i <= 35,
                fixed == fixed_names(),
                texts(out@) == fixed.take(i as int),
            decreases 35 - i,
        {
            let ghost before = out@;
            out.push(FIXED_COLUMNS[i].to_owned());
            assert(texts(out@) =~= texts(before).push(fixed[i as int]));
            assert(texts(out@) =~= fixed.take(i + 1));
            i += 1;
        }
        assert(fixed.take(35) =~= fixed);
        push_names(&mut out, &self.extra_columns);
        out
    }

    /// The name of the table that stores, under one that distributes.
    pub fn local_table(&self) -> (r: String)
        ensures
            r@ == local_name(self@),
    {
        let mut out = self.table.clone();
        out.append("_local");
        out
    }
}

/// The columns that the table must have are the ones that an insert gives values
/// for, in the same order.
pub proof fn lemma_needed_are_inserted(sink: SinkView)
    ensures
        needed_names(sink) == inserted_names(sink),
{
    lemma_table_follows_rows(sink);
}

/// No two of the fixed columns have the same name.
pub proof fn lemma_fixed_names_differ(i: int, j: int)
    requires
        0 <= i < j < 35,
    ensures
        fixed_names()[i] != fixed_names()[j],
{
    reveal_strlit("timestamp");
    assert("timestamp"@.len() == 9);
    reveal_strlit("start_timestamp");
    assert("start_timestamp"@.len() == 15 && "start_timestamp"@[3] == 'r');
    reveal_strlit("metric_name");
    assert("metric_name"@.len() == 11 && "metric_name"@[7] == 'n');
    reveal_strlit("metric_type");
    assert("metric_type"@.len() == 11 && "metric_type"@[7] == 't');
    reveal_strlit("metric_unit");
    assert("metric_unit"@.len() == 11 && "metric_unit"@[7] == 'u');
    reveal_strlit("metric_description");
    assert("metric_description"@.len() == 18 && "metric_description"@[0] == 'm');
    reveal_strlit("service_name");
    assert("service_name"@.len() == 12 && "service_name"@[0] == 's');
    reveal_strlit("scope_name");
    assert("scope_name"@.len() == 10 && "scope_name"@[0] == 's');
    reveal_strlit("scope_version");
    assert("scope_version"@.len() == 13 && "scope_version"@[0] == 's');
    reveal_strlit("resource_attributes");
    assert("resource_attributes"@.len() == 19 && "resource_attributes"@[0] == 'r');
    reveal_strlit("attributes");
    assert("attributes"@.len() == 10 && "attributes"@[0] == 'a');
    reveal_strlit("value");
    assert("value"@.len() == 5 && "value"@[0] == 'v');
    reveal_strlit("temporality");
    assert("temporality"@.len() == 11 && "temporality"@[7] == 'l');
    reveal_strlit("is_monotonic");
    assert("is_monotonic"@.len() == 12 && "is_monotonic"@[0] == 'i');
    reveal_strlit("count");
    assert("count"@.len() == 5 && "count"@[0] == 'c');
    reveal_strlit("sum");
    assert("sum"@.len() == 3 && "sum"@[1] == 'u');
    reveal_strlit("min");
    assert("min"@.len() == 3 && "min"@[1] == 'i');
    reveal_strlit("max");
    assert("max"@.len() == 3 && "max"@[1] == 'a');
    reveal_strlit("bucket_counts");
    assert("bucket_counts"@.len() == 13 && "bucket_counts"@[0] == 'b');
    reveal_strlit("explicit_bounds");
    assert("explicit_bounds"@.len() == 15 && "explicit_bounds"@[3] == 'l');
    reveal_strlit("scale");
    assert("scale"@.len() == 5 && "scale"@[0] == 's');
    reveal_strlit("zero_count");
    assert("zero_count"@.len() == 10 && "zero_count"@[0] == 'z');
    reveal_strlit("zero_threshold");
    assert("zero_threshold"@.len() == 14);
    reveal_strlit("positive_offset");
    assert("positive_offset"@.len() == 15 && "positive_offset"@[3] == 'i');
    reveal_strlit("positive_bucket_counts");
    assert("positive_bucket_counts"@.len() == 22 && "positive_bucket_counts"@[0] == 'p');
    reveal_strlit("negative_offset");
    assert("negative_offset"@.len() == 15 && "negative_offset"@[3] == 'a');
    reveal_strlit("negative_bucket_counts");
    assert("negative_bucket_counts"@.len() == 22 && "negative_bucket_counts"@[0] == 'n');
    reveal_strlit("quantiles.quantile");
    assert("quantiles.quantile"@.len() == 18 && "quantiles.quantile"@[0] == 'q');
    reveal_strlit("quantiles.value");
    assert("quantiles.value"@.len() == 15 && "quantiles.value"@[3] == 'n');
    reveal_strlit("exemplars.timestamp");
    assert("exemplars.timestamp"@.len() == 19 && "exemplars.timestamp"@[0] == 'e');
    reveal_strlit("exemplars.value");
    assert("exemplars.value"@.len() == 15 && "exemplars.value"@[3] == 'm');
    reveal_strlit("exemplars.trace_id");
    assert("exemplars.trace_id"@.len() == 18 && "exemplars.trace_id"@[0] == 'e');
    reveal_strlit("exemplars.span_id");
    assert("exemplars.span_id"@.len() == 17);
    reveal_strlit("exemplars.attributes");
    assert("exemplars.attributes"@.len() == 20);
    reveal_strlit("flags");
    assert("flags"@.len() == 5 && "flags"@[0] == 'f');
}

} // verus!
