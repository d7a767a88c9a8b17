//! What inserts and requests carry.
use crate::event::row::{has_further_columns, lemma_further_columns, FIXED_COLUMNS};
use crate::event::row_laws::{
    holds_exponential, holds_names, holds_nested, holds_numbers, lemma_columns_hold_their_fields,
};
use crate::event::EventView;
use crate::json::ordered;
use crate::scan::{occurs_at, occurs_in, trim_end_of, trimmed};
use crate::scan_laws::lemma_cut;
use crate::sink::clickhouse::{plain_sink, Columns, InsertFormat, SinkView};
use crate::sink::insert::{
    headers, insert_statement, quoted, refusal, request_for, row_of, settings, RowView,
};
use crate::sink::schema::{fixed_names, inserted_names};
use crate::text::{decimal, joined};
use vstd::prelude::*;

verus! {

/// A name between backquotes.
pub open spec fn in_quotes(name: Seq<char>) -> Seq<char> {
    seq!['`'] + name + seq!['`']
}

/// The statement of an insert names the table and the format, and for rows without
/// names every column, fixed ones first, in the order of the values.
pub proof fn lemma_insert_names_its_columns(sink: SinkView)
    ensures
        match sink.insert_format {
            InsertFormat::JsonCompactEachRow => exists|list: Seq<Seq<char>>|
                insert_statement(sink) == "INSERT INTO `"@ + sink.database + "`.`"@ + sink.table
                    + "` ("@ + #[trigger] joined(list, ", "@)
                    + ") FORMAT JSONCompactEachRow"@ && list.len() == 35
                    + sink.extra_columns.len() && (forall|i: int|
                    0 <= i < 35 ==> #[trigger] list[i] == in_quotes(FIXED_COLUMNS@[i]@)) && (
                forall|i: int|
                    0 <= i < sink.extra_columns.len() ==> list[35 + i] == in_quotes(
                        (#[trigger] sink.extra_columns[i]).0,
                    )),
            InsertFormat::JsonEachRow => insert_statement(sink) == "INSERT INTO `"@ + sink.database
                + "`.`"@ + sink.table + "` FORMAT JSONEachRow"@,
        },
{
    let list = quoted(inserted_names(sink));
    reveal_strlit("`");
    assert("`"@ =~= seq!['`']);
    assert forall|i: int| 0 <= i < 35 implies #[trigger] list[i] == in_quotes(
        FIXED_COLUMNS@[i]@,
    ) by {
        assert(inserted_names(sink)[i] == fixed_names()[i]);
    }
    assert forall|i: int| 0 <= i < sink.extra_columns.len() implies list[35 + i] == in_quotes(
        (#[trigger] sink.extra_columns[i]).0,
    ) by {
        assert(inserted_names(sink)[35 + i] == sink.extra_columns[i].0);
    }
    assert(list.len() == 35 + sink.extra_columns.len());
    assert(joined(list, ", "@) == joined(quoted(inserted_names(sink)), ", "@));
}

/// A row with names holds the fields of its event, moments in the zone of the sink,
/// and behind them the further columns.
pub proof fn lemma_named_rows(sink: SinkView, event: EventView)
    requires
        sink.insert_format is JsonEachRow,
        ordered(event.fields),
        event.shared is Some ==> ordered(event.shared->Some_0),
    ensures
        match row_of(sink, event) {
            RowView::Named(row) => {
                &&& holds_names(row.take(35), event, sink.timezone)
                &&& holds_numbers(row.take(35), event)
                &&& holds_exponential(row.take(35), event)
                &&& holds_nested(row.take(35), event, sink.timezone)
                &&& has_further_columns(row, event)
            },
            RowView::Values(_) => false,
        },
{
    lemma_columns_hold_their_fields(event, sink.timezone, Seq::empty());
    lemma_further_columns(event, sink.timezone);
}

/// Whether a list has a name with a value.
pub open spec fn says(list: Columns, name: Seq<char>, value: Seq<char>) -> bool {
    exists|i: int| 0 <= i < list.len() && #[trigger] list[i] == (name, value)
}

/// How many there are of two at a time.
pub open spec fn counted(yes: bool, n: int) -> int {
    if yes {
        n
    } else {
        0
    }
}

/// A request says the statement, that moments are read in any form, and that null is
/// the default of a column; that unknown fields are skipped, just where rows have
/// names; and that inserts are gathered and waited for, just where that is set.
pub proof fn lemma_settings(sink: SinkView, sql: Seq<char>)
    ensures
        says(settings(sink, sql), "query"@, sql),
        says(settings(sink, sql), "date_time_input_format"@, "best_effort"@),
        says(settings(sink, sql), "input_format_null_as_default"@, "1"@),
        says(settings(sink, sql), "input_format_skip_unknown_fields"@, "1"@)
            <==> sink.insert_format is JsonEachRow,
        says(settings(sink, sql), "async_insert"@, "1"@) <==> sink.async_insert,
        says(settings(sink, sql), "wait_for_async_insert"@, "1"@) <==> sink.async_insert,
        settings(sink, sql).len() == 3 + counted(sink.insert_format is JsonEachRow, 1) + counted(
            sink.async_insert,
            2,
        ),
{
    reveal_strlit("query");
    reveal_strlit("date_time_input_format");
    reveal_strlit("input_format_null_as_default");
    reveal_strlit("input_format_skip_unknown_fields");
    reveal_strlit("async_insert");
    reveal_strlit("wait_for_async_insert");
    assert("query"@.len() == 5 && "date_time_input_format"@.len() == 22
        && "input_format_null_as_default"@.len() == 28
        && "input_format_skip_unknown_fields"@.len() == 32 && "async_insert"@.len() == 12
        && "wait_for_async_insert"@.len() == 21);
    let all = settings(sink, sql);
    let named = sink.insert_format is JsonEachRow;
    assert(all[0] == ("query"@, sql));
    assert(all[1] == ("date_time_input_format"@, "best_effort"@));
    assert(all[2] == ("input_format_null_as_default"@, "1"@));
    if named {
        assert(all[3] == ("input_format_skip_unknown_fields"@, "1"@));
    }
    if sink.async_insert {
        let at = 3 + counted(named, 1);
        assert(all[at] == ("async_insert"@, "1"@));
        assert(all[at + 1] == ("wait_for_async_insert"@, "1"@));
    }
}

/// A request says how long its body is, even where it is empty; that it is
/// compressed, just where it is; and who is asking, just where both the name and the
/// password are set.
pub proof fn lemma_headers(sink: SinkView, length: nat, compressed: bool)
    ensures
        says(headers(sink, length, compressed), "content-length"@, decimal(length)),
        says(headers(sink, length, compressed), "content-encoding"@, "gzip"@) <==> compressed,
        forall|user: Seq<char>|
            says(headers(sink, length, compressed), "X-ClickHouse-User"@, user) <==> sink.user
                == Some(user) && sink.password is Some,
        forall|password: Seq<char>|
            says(headers(sink, length, compressed), "X-ClickHouse-Key"@, password)
                <==> sink.password == Some(password) && sink.user is Some,
        headers(sink, length, compressed).len() == 1 + counted(compressed, 1) + counted(
            sink.user is Some && sink.password is Some,
            2,
        ),
{
    reveal_strlit("content-length");
    reveal_strlit("content-encoding");
    reveal_strlit("X-ClickHouse-User");
    reveal_strlit("X-ClickHouse-Key");
    assert("content-length"@.len() == 14 && "content-encoding"@.len() == 16
        && "content-encoding"@[0] == 'c' && "X-ClickHouse-User"@.len() == 17
        && "X-ClickHouse-Key"@.len() == 16 && "X-ClickHouse-Key"@[0] == 'X');
    let all = headers(sink, length, compressed);
    assert(all[0] == ("content-length"@, decimal(length)));
    if compressed {
        assert(all[1] == ("content-encoding"@, "gzip"@));
    }
    if sink.user is Some && sink.password is Some {
        let at = 1 + counted(compressed, 1);
        assert(all[at] == ("X-ClickHouse-User"@, sink.user->Some_0));
        assert(all[at + 1] == ("X-ClickHouse-Key"@, sink.password->Some_0));
    }
}

/// A request goes to the endpoint of the sink, with its body, its statement and the
/// time that the sink allows.
pub proof fn lemma_requests(sink: SinkView, sql: Seq<char>, body: Seq<u8>, compressed: bool)
    ensures
        request_for(sink, sql, body, compressed).endpoint == sink.endpoint,
        request_for(sink, sql, body, compressed).timeout == sink.timeout,
        request_for(sink, sql, body, compressed).body == body,
        says(request_for(sink, sql, body, compressed).settings, "query"@, sql),
        says(
            request_for(sink, sql, body, compressed).headers,
            "content-length"@,
            decimal(body.len()),
        ),
        says(request_for(sink, sql, body, compressed).headers, "content-encoding"@, "gzip"@)
            <==> compressed,
{
    lemma_settings(sink, sql);
    lemma_headers(sink, body.len(), compressed);
}

/// What is said of a request that was not taken holds the status and the text of the
/// answer, blanks around it aside.
pub proof fn lemma_refusals(status: Seq<char>, text: Seq<char>)
    ensures
        occurs_in(status + seq![':', ' '] + trimmed(text), refusal(status, text)),
{
    lemma_colon();
    lemma_words_at_the_end("ClickHouse 返回 "@, status, seq![':', ' '], trimmed(text));
}

proof fn lemma_colon()
    ensures
        ": "@ == seq![':', ' '],
{
    reveal_strlit(": ");
    assert(": "@ =~= seq![':', ' ']);
}

/// Three texts behind a fourth stand in what they make up together.
proof fn lemma_words_at_the_end(a: Seq<char>, b: Seq<char>, c: Seq<char>, d: Seq<char>)
    ensures
        occurs_in(b + c + d, a + b + c + d),
{
    let whole = a + b + c + d;
    let part = b + c + d;
    let at = a.len() as int;
    assert(whole.subrange(at, at + part.len()) =~= part);
    assert(occurs_at(part, whole, at));
}

/// A new sink goes to the endpoint without slashes at its end, to the database and the
/// table that are named, and has nothing else set: no cluster, zone, further columns,
/// hints or credentials; rows without names, compressed and not gathered.
pub proof fn lemma_new_sinks(
    endpoint: Seq<char>,
    database: Seq<char>,
    table: Seq<char>,
    timeout: std::time::Duration,
)
    ensures
        ({
            let sink = plain_sink(endpoint, database, table, timeout);
            &&& sink.endpoint.len() > 0 ==> sink.endpoint.last() != '/'
            &&& sink.endpoint.len() <= endpoint.len()
            &&& sink.endpoint == endpoint.take(sink.endpoint.len() as int)
            &&& forall|i: int| sink.endpoint.len() <= i < endpoint.len() ==> endpoint[i] == '/'
            &&& sink.database == database && sink.table == table && sink.timeout == timeout
            &&& sink.cluster is None && sink.timezone is None
            &&& sink.user is None && sink.password is None
            &&& sink.extra_columns.len() == 0 && sink.attribute_types.len() == 0
            &&& sink.attribute_skip.len() == 0 && sink.attribute_skip_regexp.len() == 0
            &&& sink.compress && !sink.async_insert
            &&& sink.insert_format is JsonCompactEachRow
        }),
{
    lemma_cut(endpoint, '/');
    let k = choose|k: int|
        0 <= k <= endpoint.len() && trim_end_of(endpoint, '/') == #[trigger] endpoint.take(k) && (k
            > 0 ==> endpoint[k - 1] != '/') && (forall|i: int|
            k <= i < endpoint.len() ==> endpoint[i] == '/');
    assert(plain_sink(endpoint, database, table, timeout).endpoint == endpoint.take(k));
}

} // verus!
