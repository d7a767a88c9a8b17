//! Inserts: the statement, the rows, and the request that carries them.
use crate::error::PipeError;
use crate::event::row::{
    column_views, compact_row, extra_or_null, lemma_compact_row_lines_up, lemma_like_utc,
    named_row, CompactRow, WithZone, FIXED_COLUMNS,
};
use crate::event::timestamp::utc;
use crate::event::{EventView, MetricEvent};
use crate::json::{views, Entries, Json, JsonView};
use crate::scan::{trim, trimmed};
use crate::sink::body::{Insert, InsertView};
use crate::sink::clickhouse::{pairs, ClickhouseSink, Columns, InsertFormat, SinkView};
use crate::sink::schema::{inserted_names, names};
use crate::text::{chars_of, decimal, join, joined, push_decimal, text_of, texts};
use vstd::prelude::*;

verus! {

/// Names between backquotes.
pub open spec fn quoted(list: Seq<Seq<char>>) -> Seq<Seq<char>> {
    list.map_values(|name: Seq<char>| "`"@ + name + "`"@)
}

/// The statement of an insert. For rows without names it lists the columns.
pub open spec fn insert_statement(sink: SinkView) -> Seq<char> {
    match sink.insert_format {
        InsertFormat::JsonCompactEachRow => "INSERT INTO `"@ + sink.database + "`.`"@ + sink.table
            + "` ("@ + joined(quoted(inserted_names(sink)), ", "@)
            + ") FORMAT JSONCompactEachRow"@,
        InsertFormat::JsonEachRow => "INSERT INTO `"@ + sink.database + "`.`"@ + sink.table
            + "` FORMAT JSONEachRow"@,
    }
}

/// A row of an insert, in the form that its format asks for.
#[derive(Debug, PartialEq)]
pub enum Row {
    /// Values alone.
    Values(Vec<Json>),
    /// Values with the names of their columns.
    Named(Vec<(String, Json)>),
}

/// What a [`Row`] says.
pub enum RowView {
    Values(Seq<JsonView>),
    Named(Entries),
}

impl View for Row {
    type V = RowView;

    open spec fn view(&self) -> RowView {
        match self {
            Row::Values(values) => RowView::Values(views(values@)),
            Row::Named(columns) => RowView::Named(column_views(columns@)),
        }
    }
}

/// The row for an event: values that line up with the columns of the statement,
/// or named ones. Moments are in the zone of the sink, or in UTC.
pub open spec fn row_of(sink: SinkView, event: EventView) -> RowView {
    match sink.insert_format {
        InsertFormat::JsonCompactEachRow => RowView::Values(
            compact_row(event, sink.timezone, names(sink.extra_columns)),
        ),
        InsertFormat::JsonEachRow => RowView::Named(named_row(event, sink.timezone)),
    }
}

/// The values of a row line up with the columns of the statement: as many, and
/// each the one that the row with names has under the name of that column.
pub proof fn lemma_values_line_up(sink: SinkView, event: EventView)
    requires
        sink.insert_format is JsonCompactEachRow,
    ensures
        match row_of(sink, event) {
            RowView::Values(values) => {
                let columns = inserted_names(sink);
                &&& values.len() == columns.len()
                &&& forall|i: int|
                    0 <= i < 35 ==> named_row(event, sink.timezone)[i] == (
                        #[trigger] columns[i],
                        values[i],
                    )
                &&& forall|i: int|
                    35 <= i < columns.len() ==> values[i] == extra_or_null(
                        event,
                        #[trigger] columns[i],
                    )
            },
            RowView::Named(_) => false,
        },
{
    let extra = names(sink.extra_columns);
    let columns = inserted_names(sink);
    let values = compact_row(event, sink.timezone, extra);
    lemma_compact_row_lines_up(event, sink.timezone, extra);
    assert forall|i: int| 0 <= i < 35 implies named_row(event, sink.timezone)[i] == (
        #[trigger] columns[i],
        values[i],
    ) by {
        assert(columns[i] == FIXED_COLUMNS@[i]@);
        assert(compact_row(event, sink.timezone, extra)[i] == values[i]);
    }
    assert forall|i: int| 35 <= i < columns.len() implies values[i] == extra_or_null(
        event,
        #[trigger] columns[i],
    ) by {
        assert(columns[i] == extra[i - 35]);
        assert(compact_row(event, sink.timezone, extra)[35 + (i - 35)] == values[i]);
    }
}

/// What a request says beside its address: the statement, how moments are read,
/// that null stands for the default of a column, and what the sink has set.
pub open spec fn settings(sink: SinkView, sql: Seq<char>) -> Columns {
    seq![
        ("query"@, sql),
        ("date_time_input_format"@, "best_effort"@),
        ("input_format_null_as_default"@, "1"@),
    ] + if sink.insert_format is JsonEachRow {
        seq![("input_format_skip_unknown_fields"@, "1"@)]
    } else {
        Seq::empty()
    } + if sink.async_insert {
        seq![("async_insert"@, "1"@), ("wait_for_async_insert"@, "1"@)]
    } else {
        Seq::empty()
    }
}

/// The headers of a request: how long the body is, even where it is empty,
/// whether it is compressed, and who is asking, where both the name and the
/// password are known.
pub open spec fn headers(sink: SinkView, length: nat, compressed: bool) -> Columns {
    seq![("content-length"@, decimal(length))] + if compressed {
        seq![("content-encoding"@, "gzip"@)]
    } else {
        Seq::empty()
    } + if sink.user is Some && sink.password is Some {
        seq![
            ("X-ClickHouse-User"@, sink.user->Some_0),
            ("X-ClickHouse-Key"@, sink.password->Some_0),
        ]
    } else {
        Seq::empty()
    }
}

/// A request to the store.
#[derive(Debug)]
pub struct Request {
    pub endpoint: String,
    pub settings: Vec<(String, String)>,
    pub headers: Vec<(String, String)>,
    pub timeout: std::time::Duration,
    pub body: Vec<u8>,
}

/// What a [`Request`] says.
#[verifier::ext_equal]
pub struct RequestView {
    pub endpoint: Seq<char>,
    pub settings: Columns,
    pub headers: Columns,
    pub timeout: std::time::Duration,
    pub body: Seq<u8>,
}

impl View for Request {
    type V = RequestView;

    open spec fn view(&self) -> RequestView {
        RequestView {
            endpoint: self.endpoint@,
            settings: pairs(self.settings@),
            headers: pairs(self.headers@),
            timeout: self.timeout,
            body: self.body@,
        }
    }
}

/// The request that carries a statement and a body.
pub open spec fn request_for(
    sink: SinkView,
    sql: Seq<char>,
    body: Seq<u8>,
    compressed: bool,
) -> RequestView {
    RequestView {
        endpoint: sink.endpoint,
        settings: settings(sink, sql),
        headers: headers(sink, body.len(), compressed),
        timeout: sink.timeout,
        body,
    }
}

/// What is said of a request that the store did not take.
pub open spec fn refusal(status: Seq<char>, text: Seq<char>) -> Seq<char> {
    "ClickHouse 返回 "@ + status + ": "@ + trimmed(text)
}

/// What an answer of the store comes to: its text, where the status is one of
/// success. `status` is the status with its reason, such as `404 Not Found`.
pub fn reply(code: u16, status: &str, text: String) -> (r: Result<String, PipeError>)
    ensures
        match r {
            Ok(answer) => 200 <= code < 300 && answer@ == text@,
            Err(PipeError::Sink(what)) => !(200 <= code < 300) && what@ == refusal(status@, text@),
            Err(_) => false,
        },
{
    if 200 <= code && code < 300 {
        Ok(text)
    } else {
        let mut what = "ClickHouse 返回 ".to_owned();
        what.append(status);
        what.append(": ");
        what.append(text_of(&trim(&chars_of(text.as_str()))).as_str());
        Err(PipeError::Sink(what))
    }
}

fn pair(name: &str, value: &str) -> (r: (String, String))
    ensures
        r.0@ == name@,
        r.1@ == value@,
{
    (name.to_owned(), value.to_owned())
}

impl ClickhouseSink {
    /// The statement of an insert.
    pub fn insert_sql(&self) -> (r: String)
        ensures
            r@ == insert_statement(self@),
    {
        let mut out = "INSERT INTO `".to_owned();
        out.append(self.database.as_str());
        out.append("`.`");
        out.append(self.table.as_str());
        match self.insert_format {
            InsertFormat::JsonCompactEachRow => {
                let columns = self.insert_columns();
                let ghost all = quoted(texts(columns@));
                let mut list: Vec<String> = Vec::new();
                let mut i: usize = 0;
                assert(texts(list@) =~= all.take(0));
                while i < columns.len()
                    invariant
                        i <= columns@.len(),
                        all == quoted(texts(columns@)),
                        texts(list@) == all.take(i as int),
                    decreases columns@.len() - i,
                {
                    let mut name = "`".to_owned();
                    name.append(columns[i].as_str());
                    name.append("`");
                    let ghost before = list@;
                    list.push(name);
                    assert(texts(list@) =~= texts(before).push(all[i as int]));
                    assert(texts(list@) =~= all.take(i + 1));
                    i += 1;
                }
                assert(all.take(i as int) =~= all);
                out.append("` (");
                out.append(join(&list, ", ").as_str());
                out.append(") FORMAT JSONCompactEachRow");
            },
            InsertFormat::JsonEachRow => {
                out.append("` FORMAT JSONEachRow");
            },
        }
        out
    }

    /// The row for an event.
    pub fn row(&self, event: &MetricEvent) -> (r: Row)
        ensures
            r@ == row_of(self@, event@),
    {
        let tz = match &self.timezone {
            Some(tz) => *tz,
            None => {
                let tz = utc();
                proof {
                    lemma_like_utc(event@, tz);
                }
                tz
            },
        };
        match self.insert_format {
            InsertFormat::JsonCompactEachRow => {
                let extra = self.extra_names();
                let row = CompactRow { event, tz, extra: extra.as_slice() };
                Row::Values(row.values())
            },
            InsertFormat::JsonEachRow => {
                let row = WithZone { event, tz };
                Row::Named(row.columns())
            },
        }
    }

    /// An insert without rows.
    pub fn start_insert(&self) -> (r: Insert)
        ensures
            r.wf(),
            r@ == (InsertView { rows: Seq::empty(), compress: self@.compress }),
    {
        Insert::new(self.compress)
    }

    /// The request that carries a statement alone.
    pub fn execute(&self, sql: &str) -> (r: Request)
        ensures
            r@ == request_for(self@, sql@, Seq::empty(), false),
    {
        self.request(sql, Vec::new(), false)
    }

    /// The request that carries the body of an insert.
    pub fn insert_request(&self, body: Vec<u8>, compressed: bool) -> (r: Request)
        ensures
            r@ == request_for(self@, insert_statement(self@), body@, compressed),
    {
        self.request(self.insert_sql().as_str(), body, compressed)
    }

    /// The request that carries a statement and a body, which may be compressed.
    fn request(&self, sql: &str, body: Vec<u8>, compressed: bool) -> (r: Request)
        ensures
            r@ == request_for(self@, sql@, body@, compressed),
    {
        let mut query: Vec<(String, String)> = vec![
            pair("query", sql),
            pair("date_time_input_format", "best_effort"),
            pair("input_format_null_as_default", "1"),
        ];
        if self.insert_format == InsertFormat::JsonEachRow {
            query.push(pair("input_format_skip_unknown_fields", "1"));
        }
        if self.async_insert {
            query.push(pair("async_insert", "1"));
            query.push(pair("wait_for_async_insert", "1"));
        }
        assert(pairs(query@) =~= settings(self@, sql@));

        let mut length = String::new();
        push_decimal(&mut length, body.len() as u64);
        assert(length@ =~= decimal(body@.len()));
        let mut lines: Vec<(String, String)> = vec![pair("content-length", length.as_str())];
        if compressed {
            lines.push(pair("content-encoding", "gzip"));
        }
        if let Some(user) = &self.user {
            if let Some(password) = &self.password {
                lines.push(pair("X-ClickHouse-User", user.as_str()));
                lines.push(pair("X-ClickHouse-Key", password.as_str()));
            }
        }
        assert(pairs(lines@) =~= headers(self@, body@.len(), compressed));
        Request {
            endpoint: self.endpoint.clone(),
            settings: query,
            headers: lines,
            timeout: self.timeout,
            body,
        }
    }
}

} // verus!
