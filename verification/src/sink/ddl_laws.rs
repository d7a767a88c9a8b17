//! What the statements for the table hold, on one node and on a cluster.
use crate::scan::occurs_in;
use crate::sink::clickhouse::{Columns, SinkView};
use crate::sink::ddl::{
    add_columns, addable, alter_actions, alter_table, blanks, cluster_ddl, column_line,
    column_lines, create_table, ddl, distributed_table, has_name, index_lines,
    lemma_columns_of_the_table, lemma_widest, modify_moments, replicated_engine, single_ddl,
    table_body, widest, with_extra, LAYOUT,
};
use crate::sink::laws::{lemma_in_itself, lemma_in_joined, lemma_part_of_part};
use crate::sink::schema::{
    fixed_names, fixed_types, hinted_type, is_hinted, lemma_fixed_names_differ,
    lemma_table_follows_rows, local_name, names, zone_name, COLUMNS_HEAD,
};
use crate::text::{byte_len, joined};
use vstd::prelude::*;

verus! {

/// How the rows are stored: cut up by day, sorted by service, metric and time, and
/// dropped after thirty days.
pub open spec fn storage() -> Seq<char> {
    "PARTITION BY toDate(`timestamp`)\nORDER BY (`service_name`, `metric_name`, toDateTime(`timestamp`))\nTTL toDateTime(`timestamp`) + INTERVAL 30 DAY"@
}

/// The engine of the table that stores the rows.
pub open spec fn storing_engine(sink: SinkView) -> Seq<char> {
    match sink.cluster {
        Some(_) => "ENGINE = ReplicatedMergeTree('/clickhouse/tables/{shard}/"@ + sink.database
            + "/"@ + (sink.table + "_local"@) + "', '{replica}')\n"@,
        None => "ENGINE = MergeTree\n"@,
    }
}

/// The indexes, as lines to add.
pub open spec fn added_indexes() -> Seq<Seq<char>> {
    seq![
        "ADD INDEX IF NOT EXISTS `idx_metric_name` `metric_name` TYPE bloom_filter GRANULARITY 4"@,
        "ADD INDEX IF NOT EXISTS `idx_exemplar_trace_id` `exemplars.trace_id` TYPE bloom_filter GRANULARITY 4"@,
    ]
}

/// Where a statement says on which nodes it runs.
pub open spec fn on_nodes(cluster: Seq<char>) -> Seq<char> {
    " ON CLUSTER `"@ + cluster + "`"@
}

/// The statements for one node, made of what stands between the brackets and of the
/// changes to an existing table.
pub open spec fn on_one_node(
    sink: SinkView,
    body: Seq<char>,
    adds: Seq<Seq<char>>,
    changes: Seq<Seq<char>>,
) -> Seq<char> {
    "CREATE TABLE IF NOT EXISTS `"@ + sink.database + "`.`"@ + sink.table + "`"@ + body
        + "ENGINE = MergeTree\n"@ + storage() + ";\n\n"@ + ("ALTER TABLE `"@ + sink.database
        + "`.`"@ + sink.table + "`"@ + "\n    "@ + joined(
        adds + added_indexes() + changes,
        ",\n    "@,
    ))
}

/// The statements for a cluster, made of the same: a table that stores and one that
/// distributes, on all nodes, and changes to both, the indexes to the first alone.
pub open spec fn on_a_cluster(
    sink: SinkView,
    cluster: Seq<char>,
    body: Seq<char>,
    adds: Seq<Seq<char>>,
    changes: Seq<Seq<char>>,
) -> Seq<char> {
    let local = sink.table + "_local"@;
    let create = "CREATE TABLE IF NOT EXISTS `"@ + sink.database + "`.`"@;
    let alter = "ALTER TABLE `"@ + sink.database + "`.`"@;
    create + local + "`"@ + on_nodes(cluster) + body + storing_engine(sink) + storage() + ";\n\n"@
        + (create + sink.table + "`"@ + on_nodes(cluster) + "\nAS `"@ + sink.database + "`.`"@
        + local + "`\nENGINE = Distributed(`"@ + cluster + "`, `"@ + sink.database + "`, `"@ + local
        + "`, cityHash64(`service_name`, `metric_name`))"@) + ";\n\n"@ + (alter + local + "`"@
        + on_nodes(cluster) + "\n    "@ + joined(adds + added_indexes() + changes, ",\n    "@))
        + ";\n\n"@ + (alter + sink.table + "`"@ + on_nodes(cluster) + "\n    "@ + joined(
        adds + changes,
        ",\n    "@,
    ))
}

/// The index lines are the two indexes.
proof fn lemma_indexes()
    ensures
        index_lines("ADD INDEX IF NOT EXISTS `"@) == added_indexes(),
{
    reveal_strlit("ADD INDEX IF NOT EXISTS `");
    reveal_strlit("idx_metric_name");
    reveal_strlit("idx_exemplar_trace_id");
    reveal_strlit("` ");
    reveal_strlit("`metric_name` TYPE bloom_filter GRANULARITY 4");
    reveal_strlit("`exemplars.trace_id` TYPE bloom_filter GRANULARITY 4");
    reveal_strlit(
        "ADD INDEX IF NOT EXISTS `idx_metric_name` `metric_name` TYPE bloom_filter GRANULARITY 4",
    );
    reveal_strlit(
        "ADD INDEX IF NOT EXISTS `idx_exemplar_trace_id` `exemplars.trace_id` TYPE bloom_filter GRANULARITY 4",
    );
    let lines = index_lines("ADD INDEX IF NOT EXISTS `"@);
    assert(lines[0] =~= added_indexes()[0]);
    assert(lines[1] =~= added_indexes()[1]);
    assert(lines =~= added_indexes());
}

/// The changes to the columns of moments.
pub open spec fn moment_changes(sink: SinkView) -> Seq<Seq<char>> {
    match sink.timezone {
        Some(zone) => {
            let ty = "DateTime64(9, '"@ + zone_name(zone) + "')"@;
            seq![
                "MODIFY COLUMN `start_timestamp` "@ + ty,
                "MODIFY COLUMN `exemplars.timestamp` Array("@ + ty + ")"@,
            ]
        },
        None => Seq::empty(),
    }
}

/// A cluster gets the statements of one node, for a table that stores, and one more
/// table over it: the same columns, the same storage, the same changes.
pub proof fn lemma_cluster_like_one_node(sink: SinkView, cluster: Seq<char>, extra: Columns)
    requires
        sink.cluster == Some(cluster),
    ensures
        exists|body: Seq<char>, adds: Seq<Seq<char>>|
            ddl((SinkView { cluster: None, ..sink }), extra) == #[trigger] on_one_node(
                sink,
                body,
                adds,
                moment_changes(sink),
            ) && ddl(sink, extra) == on_a_cluster(
                sink,
                cluster,
                body,
                adds,
                moment_changes(sink),
            ),
{
    let plain = SinkView { cluster: None, ..sink };
    let columns = with_extra(fixed_types(sink), extra);
    let body = "\n(\n"@ + table_body(columns) + "\n)\n"@;
    let adds = add_columns(columns);
    let changes = moment_changes(sink);
    assert(hinted_type(plain) == hinted_type(sink));
    assert(fixed_types(plain) == fixed_types(sink));
    assert(modify_moments(sink) =~= changes);
    assert(modify_moments(plain) =~= changes);
    lemma_indexes();
    assert(alter_actions(sink, columns, true) == adds + added_indexes() + changes);
    assert(alter_actions(plain, columns, true) == adds + added_indexes() + changes);
    assert(alter_actions(sink, columns, false) =~= adds + changes);
    lemma_one_node(plain, sink, columns, body, adds, changes);
    lemma_one_cluster(sink, cluster, columns, body, adds, changes);
}

proof fn lemma_one_node(
    plain: SinkView,
    sink: SinkView,
    columns: Columns,
    body: Seq<char>,
    adds: Seq<Seq<char>>,
    changes: Seq<Seq<char>>,
)
    requires
        plain == (SinkView { cluster: None, ..sink }),
        body == "\n(\n"@ + table_body(columns) + "\n)\n"@,
        alter_actions(plain, columns, true) == adds + added_indexes() + changes,
    ensures
        single_ddl(plain, columns) == on_one_node(sink, body, adds, changes),
{
    let none = ""@;
    reveal_strlit("");
    let head = "CREATE TABLE IF NOT EXISTS `"@ + sink.database + "`.`"@ + sink.table + "`"@;
    assert(head + none =~= head);
    assert(head + none + "\n(\n"@ + table_body(columns) + "\n)\n"@ =~= head + body);
    let alter = "ALTER TABLE `"@ + sink.database + "`.`"@ + sink.table + "`"@;
    assert(alter + none =~= alter);
}

proof fn lemma_one_cluster(
    sink: SinkView,
    cluster: Seq<char>,
    columns: Columns,
    body: Seq<char>,
    adds: Seq<Seq<char>>,
    changes: Seq<Seq<char>>,
)
    requires
        sink.cluster == Some(cluster),
        body == "\n(\n"@ + table_body(columns) + "\n)\n"@,
        alter_actions(sink, columns, true) == adds + added_indexes() + changes,
        alter_actions(sink, columns, false) == adds + changes,
    ensures
        cluster_ddl(sink, columns, cluster) == on_a_cluster(
            sink,
            cluster,
            body,
            adds,
            changes,
        ),
{
    let local = sink.table + "_local"@;
    let head = "CREATE TABLE IF NOT EXISTS `"@ + sink.database + "`.`"@ + local + "`"@ + on_nodes(
        cluster,
    );
    assert(head + "\n(\n"@ + table_body(columns) + "\n)\n"@ =~= head + body);
}

/// The table that stores the rows is made with its engine and the whole of the
/// storage clause, up to the end of its statement, on one node and on a cluster.
pub proof fn lemma_rows_are_stored_alike(sink: SinkView, extra: Columns)
    ensures
        occurs_in(storing_engine(sink) + storage() + ";"@, ddl(sink, extra)),
{
    let columns = with_extra(fixed_types(sink), extra);
    let body = "\n(\n"@ + table_body(columns) + "\n)\n"@;
    let adds = add_columns(columns);
    let changes = modify_moments(sink);
    lemma_indexes();
    assert(alter_actions(sink, columns, true) == adds + added_indexes() + changes);
    assert(alter_actions(sink, columns, false) =~= adds + changes);
    match sink.cluster {
        Some(cluster) => {
            lemma_one_cluster(sink, cluster, columns, body, adds, changes);
            lemma_clause_of_a_cluster(sink, cluster, body, adds, changes);
        },
        None => {
            lemma_one_node(sink, sink, columns, body, adds, changes);
            let front = "CREATE TABLE IF NOT EXISTS `"@ + sink.database + "`.`"@ + sink.table
                + "`"@ + body;
            let alter = "ALTER TABLE `"@ + sink.database + "`.`"@ + sink.table + "`"@ + "\n    "@
                + joined(adds + added_indexes() + changes, ",\n    "@);
            lemma_first_statement(front, "ENGINE = MergeTree\n"@, storage());
            lemma_still_there(
                storing_engine(sink) + storage() + ";"@,
                front + "ENGINE = MergeTree\n"@ + storage() + ";\n\n"@,
                alter,
            );
        },
    }
}

proof fn lemma_clause_of_a_cluster(
    sink: SinkView,
    cluster: Seq<char>,
    body: Seq<char>,
    adds: Seq<Seq<char>>,
    changes: Seq<Seq<char>>,
)
    ensures
        occurs_in(
            storing_engine(sink) + storage() + ";"@,
            on_a_cluster(sink, cluster, body, adds, changes),
        ),
{
    let local = sink.table + "_local"@;
    let create = "CREATE TABLE IF NOT EXISTS `"@ + sink.database + "`.`"@;
    let alter = "ALTER TABLE `"@ + sink.database + "`.`"@;
    let one = create + sink.table + "`"@ + on_nodes(cluster) + "\nAS `"@ + sink.database + "`.`"@
        + local + "`\nENGINE = Distributed(`"@ + cluster + "`, `"@ + sink.database + "`, `"@ + local
        + "`, cityHash64(`service_name`, `metric_name`))"@;
    let two = alter + local + "`"@ + on_nodes(cluster) + "\n    "@ + joined(
        adds + added_indexes() + changes,
        ",\n    "@,
    );
    let three = alter + sink.table + "`"@ + on_nodes(cluster) + "\n    "@ + joined(
        adds + changes,
        ",\n    "@,
    );
    let front = create + local + "`"@ + on_nodes(cluster) + body;
    lemma_regrouped(front, storing_engine(sink), storage(), one, two, three);
}

/// What stands behind the first statements does not bear on the clause in them.
proof fn lemma_regrouped(
    front: Seq<char>,
    engine: Seq<char>,
    layout: Seq<char>,
    one: Seq<char>,
    two: Seq<char>,
    three: Seq<char>,
)
    ensures
        occurs_in(
            engine + layout + ";"@,
            front + engine + layout + ";\n\n"@ + one + ";\n\n"@ + two + ";\n\n"@ + three,
        ),
{
    let clause = engine + layout + ";"@;
    let stop = ";\n\n"@;
    lemma_first_statement(front, engine, layout);
    let first = front + engine + layout + stop;
    lemma_still_there(clause, first, one);
    lemma_still_there(clause, first + one, stop);
    lemma_still_there(clause, first + one + stop, two);
    lemma_still_there(clause, first + one + stop + two, stop);
    lemma_still_there(clause, first + one + stop + two + stop, three);
}

/// The end of a statement.
proof fn lemma_stop()
    ensures
        ";"@ + seq!['\n', '\n'] == ";\n\n"@,
{
    reveal_strlit(";");
    reveal_strlit(";\n\n");
    assert(";"@ + seq!['\n', '\n'] =~= ";\n\n"@);
}

/// The clause stands at the end of the first statement.
proof fn lemma_first_statement(front: Seq<char>, engine: Seq<char>, layout: Seq<char>)
    ensures
        occurs_in(engine + layout + ";"@, front + engine + layout + ";\n\n"@),
{
    let breaks = seq!['\n', '\n'];
    let clause = engine + layout + ";"@;
    lemma_stop();
    lemma_in_itself(clause);
    lemma_part_of_part(clause, clause, front, breaks);
    lemma_regrouped_text(front, engine, layout, ";"@, breaks);
}

/// Five texts one behind the other, however they are grouped.
proof fn lemma_regrouped_text(
    a: Seq<char>,
    b: Seq<char>,
    c: Seq<char>,
    d: Seq<char>,
    e: Seq<char>,
)
    ensures
        a + (b + c + d) + e == a + b + c + (d + e),
{
    assert(a + (b + c + d) + e =~= a + b + c + (d + e));
}

/// What occurs in a text occurs in a longer one.
proof fn lemma_still_there(part: Seq<char>, text: Seq<char>, more: Seq<char>)
    requires
        occurs_in(part, text),
    ensures
        occurs_in(part, text + more),
{
    let none = Seq::<char>::empty();
    lemma_part_of_part(part, text, none, more);
    assert(none + text + more =~= text + more);
}

/// The type of a moment: to the nanosecond, and with the zone that is set.
pub open spec fn moment_text(sink: SinkView) -> Seq<char> {
    match sink.timezone {
        Some(zone) => "DateTime64(9, '"@ + zone_name(zone) + "')"@,
        None => "DateTime64(9)"@,
    }
}

/// The types of the fixed columns hold what rows write into them: whole numbers of
/// the width of their field, doubles, texts, arrays of these, and attributes.
pub proof fn lemma_types_of_the_columns(sink: SinkView)
    ensures
        fixed_types(sink).len() == 35,
        fixed_types(sink)[0] == ("timestamp"@, moment_text(sink)),
        fixed_types(sink)[1] == ("start_timestamp"@, moment_text(sink)),
        fixed_types(sink)[2] == ("metric_name"@, "LowCardinality(String)"@),
        fixed_types(sink)[3] == ("metric_type"@, "LowCardinality(String)"@),
        fixed_types(sink)[4] == ("metric_unit"@, "LowCardinality(String)"@),
        fixed_types(sink)[5] == ("metric_description"@, "String"@),
        fixed_types(sink)[6] == ("service_name"@, "LowCardinality(String)"@),
        fixed_types(sink)[7] == ("scope_name"@, "LowCardinality(String)"@),
        fixed_types(sink)[8] == ("scope_version"@, "LowCardinality(String)"@),
        fixed_types(sink)[9] == ("resource_attributes"@, hinted_type(sink)),
        fixed_types(sink)[10] == ("attributes"@, hinted_type(sink)),
        fixed_types(sink)[11] == ("value"@, "Float64"@),
        fixed_types(sink)[12] == ("temporality"@, "LowCardinality(String)"@),
        fixed_types(sink)[13] == ("is_monotonic"@, "UInt8"@),
        fixed_types(sink)[14] == ("count"@, "UInt64"@),
        fixed_types(sink)[15] == ("sum"@, "Float64"@),
        fixed_types(sink)[16] == ("min"@, "Float64"@),
        fixed_types(sink)[17] == ("max"@, "Float64"@),
        fixed_types(sink)[18] == ("bucket_counts"@, "Array(UInt64)"@),
        fixed_types(sink)[19] == ("explicit_bounds"@, "Array(Float64)"@),
        fixed_types(sink)[20] == ("scale"@, "Int32"@),
        fixed_types(sink)[21] == ("zero_count"@, "UInt64"@),
        fixed_types(sink)[22] == ("zero_threshold"@, "Float64"@),
        fixed_types(sink)[23] == ("positive_offset"@, "Int32"@),
        fixed_types(sink)[24] == ("positive_bucket_counts"@, "Array(UInt64)"@),
        fixed_types(sink)[25] == ("negative_offset"@, "Int32"@),
        fixed_types(sink)[26] == ("negative_bucket_counts"@, "Array(UInt64)"@),
        fixed_types(sink)[27] == ("quantiles.quantile"@, "Array(Float64)"@),
        fixed_types(sink)[28] == ("quantiles.value"@, "Array(Float64)"@),
        fixed_types(sink)[29] == ("exemplars.timestamp"@, "Array("@ + moment_text(sink) + ")"@),
        fixed_types(sink)[30] == ("exemplars.value"@, "Array(Float64)"@),
        fixed_types(sink)[31] == ("exemplars.trace_id"@, "Array(String)"@),
        fixed_types(sink)[32] == ("exemplars.span_id"@, "Array(String)"@),
        fixed_types(sink)[33] == ("exemplars.attributes"@, "Array(JSON)"@),
        fixed_types(sink)[34] == ("flags"@, "UInt32"@),
{
    let all = fixed_names();
    assert(all[9] == "resource_attributes"@ && all[10] == "attributes"@);
    assert forall|i: int| 2 <= i < 27 && i != 9 && i != 10 implies !is_hinted(
        #[trigger] all[i],
    ) by {
        if i < 9 {
            lemma_fixed_names_differ(i, 9);
            lemma_fixed_names_differ(i, 10);
        } else {
            lemma_fixed_names_differ(9, i);
            lemma_fixed_names_differ(10, i);
        }
    }
    let columns = fixed_types(sink);
    lemma_table_follows_rows(sink);
    assert forall|i: int| 2 <= i < 27 && i != 9 && i != 10 implies #[trigger] columns[i] == (
        COLUMNS_HEAD@[i - 2].0@,
        COLUMNS_HEAD@[i - 2].1@,
    ) by {
        assert(all[i] == names(columns)[i]);
        assert(!is_hinted(all[i]));
    }
}

/// A further column is in the table with its own type, unless a fixed column or a
/// further one before it has its name.
pub proof fn lemma_further_column_types(columns: Columns, extra: Columns, at: int)
    requires
        0 <= at < extra.len(),
        !has_name(columns, extra[at].0),
        forall|i: int| 0 <= i < at ==> (#[trigger] extra[i]).0 != extra[at].0,
    ensures
        with_extra(columns, extra).contains(extra[at]),
    decreases extra.len(),
{
    let rest = extra.drop_last();
    let before = with_extra(columns, rest);
    let all = with_extra(columns, extra);
    if at < rest.len() {
        assert forall|i: int| 0 <= i < at implies (#[trigger] rest[i]).0 != rest[at].0 by {
            assert(rest[i] == extra[i]);
        }
        lemma_further_column_types(columns, rest, at);
        let k = choose|k: int| 0 <= k < before.len() && before[k] == rest[at];
        assert(all[k] == extra[at]);
    } else {
        lemma_no_new_name(columns, rest, extra[at].0);
        assert(all[all.len() - 1] == extra[at]);
    }
}

/// There is no name but those of the columns and the further ones.
proof fn lemma_no_new_name(columns: Columns, extra: Columns, name: Seq<char>)
    requires
        !has_name(columns, name),
        forall|i: int| 0 <= i < extra.len() ==> (#[trigger] extra[i]).0 != name,
    ensures
        !has_name(with_extra(columns, extra), name),
    decreases extra.len(),
{
    if extra.len() > 0 {
        let rest = extra.drop_last();
        let before = with_extra(columns, rest);
        let all = with_extra(columns, extra);
        assert forall|i: int| 0 <= i < rest.len() implies (#[trigger] rest[i]).0 != name by {
            assert(rest[i] == extra[i]);
        }
        lemma_no_new_name(columns, rest, name);
        assert(extra[extra.len() - 1].0 != name);
        if has_name(all, name) {
            let k = choose|k: int| 0 <= k < all.len() && (#[trigger] all[k]).0 == name;
            if k < before.len() {
                assert(before[k] == all[k]);
            }
        }
    }
}

/// The columns that are added where they are missing are all but the first.
proof fn lemma_all_but_the_first(columns: Columns)
    requires
        columns.len() > 0,
        columns[0].0 == "timestamp"@,
        forall|i: int| 0 < i < columns.len() ==> (#[trigger] columns[i]).0 != "timestamp"@,
    ensures
        addable(columns) == columns.skip(1),
    decreases columns.len(),
{
    let rest = columns.drop_last();
    if rest.len() > 0 {
        assert(rest[0] == columns[0]);
        assert forall|i: int| 0 < i < rest.len() implies (#[trigger] rest[i]).0
            != "timestamp"@ by {
            assert(rest[i] == columns[i]);
        }
        lemma_all_but_the_first(rest);
        assert(columns[columns.len() - 1].0 != "timestamp"@);
        assert(addable(columns) =~= columns.skip(1));
    } else {
        assert(rest =~= Seq::empty());
        assert(columns.last() == columns[0]);
        assert(addable(rest) =~= Seq::empty());
        assert(addable(columns) =~= columns.skip(1));
    }
}

/// What occurs in a text occurs in a longer one that ends in it.
proof fn lemma_there_at_the_end(part: Seq<char>, text: Seq<char>, before: Seq<char>)
    requires
        occurs_in(part, text),
    ensures
        occurs_in(part, before + text),
{
    let none = Seq::<char>::empty();
    lemma_part_of_part(part, text, before, none);
    assert(before + text + none =~= before + text);
}

/// A line that makes a column: its name, blanks up to a width, its type.
pub open spec fn makes_column(line: Seq<char>, column: (Seq<char>, Seq<char>), width: nat) -> bool {
    exists|pad: Seq<char>|
        line == #[trigger] ("    `"@ + column.0 + "`"@ + pad + " "@ + column.1) && byte_len(
            column.0,
        ) + pad.len() == width && forall|i: int| 0 <= i < pad.len() ==> #[trigger] pad[i] == ' '
}

/// The table is made with every column: its name, and its type at the same place in
/// every line.
pub proof fn lemma_every_column_is_made(sink: SinkView, extra: Columns, at: int)
    requires
        0 <= at < with_extra(fixed_types(sink), extra).len(),
    ensures
        exists|line: Seq<char>|
            makes_column(
                line,
                with_extra(fixed_types(sink), extra)[at],
                widest(with_extra(fixed_types(sink), extra)),
            ) && #[trigger] occurs_in(line, ddl(sink, extra)),
{
    let columns = with_extra(fixed_types(sink), extra);
    let width = widest(columns);
    let line = column_line(columns[at], width);
    let parts = column_lines(columns) + index_lines("    INDEX `"@);
    let pad = blanks((width - byte_len(columns[at].0)) as nat);
    lemma_widest(columns, at);
    assert(parts[at] == line);
    assert(line == "    `"@ + columns[at].0 + "`"@ + pad + " "@ + columns[at].1);
    assert(makes_column(line, columns[at], width));
    lemma_in_itself(line);
    lemma_in_joined(parts, ",\n"@, at, line);
    lemma_body_is_there(sink, extra, line);
}

/// What stands between the brackets stands in the statements.
proof fn lemma_body_is_there(sink: SinkView, extra: Columns, part: Seq<char>)
    requires
        occurs_in(part, table_body(with_extra(fixed_types(sink), extra))),
    ensures
        occurs_in(part, ddl(sink, extra)),
{
    let columns = with_extra(fixed_types(sink), extra);
    let body = table_body(columns);
    match sink.cluster {
        Some(cluster) => {
            let on = " ON CLUSTER `"@ + cluster + "`"@;
            let local = local_name(sink);
            let head = "CREATE TABLE IF NOT EXISTS `"@ + sink.database + "`.`"@ + local + "`"@ + on
                + "\n(\n"@;
            lemma_part_of_part(part, body, head, "\n)\n"@);
            let create = create_table(sink, columns, local, on);
            let engine = replicated_engine(sink);
            let stop = ";\n\n"@;
            let one = distributed_table(sink, cluster, on);
            let two = alter_table(sink, columns, local, on, true);
            let three = alter_table(sink, columns, sink.table, on, false);
            lemma_still_there(part, create, engine);
            lemma_still_there(part, create + engine, LAYOUT@);
            lemma_still_there(part, create + engine + LAYOUT@, stop);
            lemma_still_there(part, create + engine + LAYOUT@ + stop, one);
            lemma_still_there(part, create + engine + LAYOUT@ + stop + one, stop);
            lemma_still_there(part, create + engine + LAYOUT@ + stop + one + stop, two);
            lemma_still_there(part, create + engine + LAYOUT@ + stop + one + stop + two, stop);
            lemma_still_there(
                part,
                create + engine + LAYOUT@ + stop + one + stop + two + stop,
                three,
            );
        },
        None => {
            let head = "CREATE TABLE IF NOT EXISTS `"@ + sink.database + "`.`"@ + sink.table
                + "`"@ + ""@ + "\n(\n"@;
            lemma_part_of_part(part, body, head, "\n)\n"@);
            let create = create_table(sink, columns, sink.table, ""@);
            let engine = "ENGINE = MergeTree\n"@;
            let stop = ";\n\n"@;
            lemma_still_there(part, create, engine);
            lemma_still_there(part, create + engine, LAYOUT@);
            lemma_still_there(part, create + engine + LAYOUT@, stop);
            lemma_still_there(
                part,
                create + engine + LAYOUT@ + stop,
                alter_table(sink, columns, sink.table, ""@, true),
            );
        },
    }
}

/// Every column but the first, by which the table is sorted, is added to a table
/// that lacks it, with its type.
pub proof fn lemma_every_other_column_is_added(sink: SinkView, extra: Columns, at: int)
    requires
        0 < at < with_extra(fixed_types(sink), extra).len(),
    ensures
        ({
            let column = with_extra(fixed_types(sink), extra)[at];
            occurs_in(
                "ADD COLUMN IF NOT EXISTS `"@ + column.0 + "` "@ + column.1,
                ddl(sink, extra),
            )
        }),
{
    let columns = with_extra(fixed_types(sink), extra);
    let add = "ADD COLUMN IF NOT EXISTS `"@ + columns[at].0 + "` "@ + columns[at].1;
    lemma_columns_of_the_table(sink, extra);
    lemma_types_of_the_columns(sink);
    assert(columns[0] == fixed_types(sink)[0]);
    assert forall|i: int| 0 < i < columns.len() implies (#[trigger] columns[i]).0
        != "timestamp"@ by {
        assert(columns[0].0 != columns[i].0);
    }
    lemma_all_but_the_first(columns);
    assert(add_columns(columns)[at - 1] == add);
    lemma_in_itself(add);
    let with_index = sink.cluster is None;
    let actions = alter_actions(sink, columns, with_index);
    assert(actions[at - 1] == add);
    lemma_in_joined(actions, ",\n    "@, at - 1, add);
    match sink.cluster {
        Some(cluster) => {
            let on = " ON CLUSTER `"@ + cluster + "`"@;
            let head = "ALTER TABLE `"@ + sink.database + "`.`"@ + sink.table + "`"@ + on
                + "\n    "@;
            lemma_there_at_the_end(add, joined(actions, ",\n    "@), head);
            lemma_there_at_the_end(
                add,
                alter_table(sink, columns, sink.table, on, false),
                create_table(sink, columns, local_name(sink), on) + replicated_engine(sink)
                    + LAYOUT@ + ";\n\n"@ + distributed_table(sink, cluster, on) + ";\n\n"@
                    + alter_table(sink, columns, local_name(sink), on, true) + ";\n\n"@,
            );
        },
        None => {
            let head = "ALTER TABLE `"@ + sink.database + "`.`"@ + sink.table + "`"@ + ""@
                + "\n    "@;
            lemma_there_at_the_end(add, joined(actions, ",\n    "@), head);
            lemma_there_at_the_end(
                add,
                alter_table(sink, columns, sink.table, ""@, true),
                create_table(sink, columns, sink.table, ""@) + "ENGINE = MergeTree\n"@ + LAYOUT@
                    + ";\n\n"@,
            );
        },
    }
}

/// The width is that of the longest name.
pub proof fn lemma_width(columns: Columns)
    requires
        columns.len() > 0,
    ensures
        forall|i: int|
            0 <= i < columns.len() ==> byte_len((#[trigger] columns[i]).0) <= widest(columns),
        exists|i: int|
            0 <= i < columns.len() && byte_len((#[trigger] columns[i]).0) == widest(columns),
    decreases columns.len(),
{
    let rest = columns.drop_last();
    assert forall|i: int| 0 <= i < columns.len() implies byte_len((#[trigger] columns[i]).0)
        <= widest(columns) by {
        lemma_widest(columns, i);
    }
    if rest.len() > 0 && byte_len(columns.last().0) <= widest(rest) {
        lemma_width(rest);
        let i = choose|i: int|
            0 <= i < rest.len() && byte_len((#[trigger] rest[i]).0) == widest(rest);
        assert(columns[i] == rest[i]);
    } else {
        assert(columns[columns.len() - 1] == columns.last());
        assert(rest.len() == 0 ==> widest(rest) == 0);
    }
}

} // verus!
