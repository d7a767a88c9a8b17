//! The statements that make the table, or bring one up to date.
use crate::sink::clickhouse::{pairs, ClickhouseSink, Columns, SinkView};
use crate::sink::schema::{
    fixed_types, lemma_fixed_names_differ, lemma_table_follows_rows, local_name, moment_type, names,
};
use crate::text::{byte_len, bytes_in, join, joined, same_text, texts};
use vstd::prelude::*;

verus! {

/// The indexes that let a query skip over parts of the table: by the name of a
/// metric alone, and by the trace of an exemplar.
pub const INDEXES: [(&'static str, &'static str); 2] = [
    ("idx_metric_name", "`metric_name` TYPE bloom_filter GRANULARITY 4"),
    ("idx_exemplar_trace_id", "`exemplars.trace_id` TYPE bloom_filter GRANULARITY 4"),
];

/// How the table is cut up and sorted, and how long rows stay.
pub const LAYOUT: &'static str = "PARTITION BY toDate(`timestamp`)\nORDER BY (`service_name`, `metric_name`, toDateTime(`timestamp`))\nTTL toDateTime(`timestamp`) + INTERVAL 30 DAY";

/// Whether there is a column of that name.
pub open spec fn has_name(columns: Columns, name: Seq<char>) -> bool {
    exists|i: int| 0 <= i < columns.len() && (#[trigger] columns[i]).0 == name
}

/// Columns, and behind them those of `extra` whose names none of the ones before
/// has.
pub open spec fn with_extra(columns: Columns, extra: Columns) -> Columns
    decreases extra.len(),
{
    if extra.len() == 0 {
        columns
    } else {
        let before = with_extra(columns, extra.drop_last());
        if has_name(before, extra.last().0) {
            before
        } else {
            before.push(extra.last())
        }
    }
}

/// How many bytes the longest name has.
pub open spec fn widest(columns: Columns) -> nat
    decreases columns.len(),
{
    if columns.len() == 0 {
        0
    } else {
        let before = widest(columns.drop_last());
        let last = byte_len(columns.last().0);
        if last > before {
            last
        } else {
            before
        }
    }
}

/// So many blanks.
pub open spec fn blanks(n: nat) -> Seq<char> {
    Seq::new(n, |i: int| ' ')
}

/// A column as a line of the statement, the types one below the other.
pub open spec fn column_line(column: (Seq<char>, Seq<char>), width: nat) -> Seq<char> {
    "    `"@ + column.0 + "`"@ + blanks((width - byte_len(column.0)) as nat) + " "@ + column.1
}

/// The lines for columns.
pub open spec fn column_lines(columns: Columns) -> Seq<Seq<char>> {
    columns.map_values(
        |column: (Seq<char>, Seq<char>)| column_line(column, widest(columns)),
    )
}

/// The lines for the indexes, each behind a text.
pub open spec fn index_lines(start: Seq<char>) -> Seq<Seq<char>> {
    INDEXES@.map_values(
        |index: (&'static str, &'static str)| start + index.0@ + "` "@ + index.1@,
    )
}

/// What stands between the brackets of the statement.
pub open spec fn table_body(columns: Columns) -> Seq<char> {
    joined(column_lines(columns) + index_lines("    INDEX `"@), ",\n"@)
}

/// The columns that an existing table may be missing: all but the one that the
/// table is sorted by.
pub open spec fn addable(columns: Columns) -> Columns
    decreases columns.len(),
{
    if columns.len() == 0 {
        Seq::empty()
    } else if columns.last().0 == "timestamp"@ {
        addable(columns.drop_last())
    } else {
        addable(columns.drop_last()).push(columns.last())
    }
}

/// The columns to add where they are missing.
pub open spec fn add_columns(columns: Columns) -> Seq<Seq<char>> {
    addable(columns).map_values(
        |column: (Seq<char>, Seq<char>)|
            "ADD COLUMN IF NOT EXISTS `"@ + column.0 + "` "@ + column.1,
    )
}

/// The moments to show in a zone, where one is set. The first of them cannot be
/// changed, since the table is sorted by it.
pub open spec fn modify_moments(sink: SinkView) -> Seq<Seq<char>> {
    if sink.timezone is Some {
        seq![
            "MODIFY COLUMN `start_timestamp` "@ + moment_type(sink),
            "MODIFY COLUMN `exemplars.timestamp` Array("@ + moment_type(sink) + ")"@,
        ]
    } else {
        Seq::empty()
    }
}

/// What an existing table is changed by. A table that distributes has no indexes.
pub open spec fn alter_actions(sink: SinkView, columns: Columns, with_index: bool) -> Seq<
    Seq<char>,
> {
    add_columns(columns) + if with_index {
        index_lines("ADD INDEX IF NOT EXISTS `"@)
    } else {
        Seq::empty()
    } + modify_moments(sink)
}

/// The statement that brings an existing table up to date.
pub open spec fn alter_table(
    sink: SinkView,
    columns: Columns,
    target: Seq<char>,
    on_cluster: Seq<char>,
    with_index: bool,
) -> Seq<char> {
    "ALTER TABLE `"@ + sink.database + "`.`"@ + target + "`"@ + on_cluster + "\n    "@ + joined(
        alter_actions(sink, columns, with_index),
        ",\n    "@,
    )
}

/// The statement that makes a table, up to its engine.
pub open spec fn create_table(
    sink: SinkView,
    columns: Columns,
    target: Seq<char>,
    on_cluster: Seq<char>,
) -> Seq<char> {
    "CREATE TABLE IF NOT EXISTS `"@ + sink.database + "`.`"@ + target + "`"@ + on_cluster
        + "\n(\n"@ + table_body(columns) + "\n)\n"@
}

/// The statements for a single node: make the table, bring it up to date.
pub open spec fn single_ddl(sink: SinkView, columns: Columns) -> Seq<char> {
    create_table(sink, columns, sink.table, ""@) + "ENGINE = MergeTree\n"@ + LAYOUT@ + ";\n\n"@
        + alter_table(sink, columns, sink.table, ""@, true)
}

/// The engine of the table that stores, on each node of a cluster.
pub open spec fn replicated_engine(sink: SinkView) -> Seq<char> {
    "ENGINE = ReplicatedMergeTree('/clickhouse/tables/{shard}/"@ + sink.database + "/"@
        + local_name(sink) + "', '{replica}')\n"@
}

/// The statement that makes the table that distributes.
pub open spec fn distributed_table(
    sink: SinkView,
    cluster: Seq<char>,
    on_cluster: Seq<char>,
) -> Seq<char> {
    "CREATE TABLE IF NOT EXISTS `"@ + sink.database + "`.`"@ + sink.table + "`"@ + on_cluster
        + "\nAS `"@ + sink.database + "`.`"@ + local_name(sink) + "`\nENGINE = Distributed(`"@
        + cluster + "`, `"@ + sink.database + "`, `"@ + local_name(sink)
        + "`, cityHash64(`service_name`, `metric_name`))"@
}

/// The statements for a cluster: make the table that stores and the one that
/// distributes, bring both up to date, the one that stores first.
pub open spec fn cluster_ddl(sink: SinkView, columns: Columns, cluster: Seq<char>) -> Seq<char> {
    let on_cluster = " ON CLUSTER `"@ + cluster + "`"@;
    create_table(sink, columns, local_name(sink), on_cluster) + replicated_engine(sink) + LAYOUT@
        + ";\n\n"@ + distributed_table(sink, cluster, on_cluster) + ";\n\n"@ + alter_table(
        sink,
        columns,
        local_name(sink),
        on_cluster,
        true,
    ) + ";\n\n"@ + alter_table(sink, columns, sink.table, on_cluster, false)
}

/// The statements that make the table with these further columns, or bring one up
/// to date.
pub open spec fn ddl(sink: SinkView, extra: Columns) -> Seq<char> {
    let columns = with_extra(fixed_types(sink), extra);
    match sink.cluster {
        Some(cluster) => cluster_ddl(sink, columns, cluster),
        None => single_ddl(sink, columns),
    }
}

/// Whether there is a column of that name.
fn known(columns: &Vec<(String, String)>, name: &str) -> (r: bool)
    ensures
        r == has_name(pairs(columns@), name@),
{
    let mut i: usize = 0;
    while i < columns.len()
        invariant
            i <= columns@.len(),
            forall|j: int| 0 <= j < i ==> (#[trigger] pairs(columns@)[j]).0 != name@,
        decreases columns@.len() - i,
    {
        if same_text(columns[i].0.as_str(), name) {
            assert(pairs(columns@)[i as int].0 == name@);
            return true;
        }
        i += 1;
    }
    false
}

/// Puts the further columns behind the others.
fn push_extra(columns: &mut Vec<(String, String)>, extra: &[(String, String)])
    ensures
        pairs(final(columns)@) == with_extra(pairs(old(columns)@), pairs(extra@)),
{
    let ghost start = pairs(columns@);
    let ghost all = pairs(extra@);
    let mut i: usize = 0;
    assert(all.take(0) =~= Seq::empty());
    while i < extra.len()
        invariant
            i <= extra@.len(),
            all == pairs(extra@),
            pairs(columns@) == with_extra(start, all.take(i as int)),
        decreases extra@.len() - i,
    {
        let ghost before = pairs(columns@);
        proof {
            assert(all.take(i + 1).drop_last() =~= all.take(i as int));
            assert(all.take(i + 1).last() == all[i as int]);
        }
        if !known(columns, extra[i].0.as_str()) {
            columns.push((extra[i].0.clone(), extra[i].1.clone()));
            assert(pairs(columns@) =~= before.push(all[i as int]));
        }
        i += 1;
    }
    assert(all.take(i as int) =~= all);
}

/// No name is longer than the longest.
pub proof fn lemma_widest(columns: Columns, i: int)
    requires
        0 <= i < columns.len(),
    ensures
        byte_len(columns[i].0) <= widest(columns),
    decreases columns.len(),
{
    if i < columns.len() - 1 {
        lemma_widest(columns.drop_last(), i);
    }
}

fn longest(columns: &Vec<(String, String)>) -> (r: usize)
    ensures
        r == widest(pairs(columns@)),
{
    let ghost all = pairs(columns@);
    let mut width: usize = 0;
    let mut i: usize = 0;
    assert(all.take(0) =~= Seq::empty());
    while i < columns.len()
        invariant
            i <= columns@.len(),
            all == pairs(columns@),
            width == widest(all.take(i as int)),
        decreases columns@.len() - i,
    {
        assert(all.take(i + 1).drop_last() =~= all.take(i as int));
        let len: usize = bytes_in(columns[i].0.as_str());
        if len > width {
            width = len;
        }
        i += 1;
    }
    assert(all.take(i as int) =~= all);
    width
}

fn push_blanks(text: &mut String, n: usize)
    ensures
        final(text)@ == old(text)@ + blanks(n as nat),
{
    let mut i: usize = 0;
    assert(text@ =~= old(text)@ + blanks(0));
    while i < n
        invariant
            i <= n,
            text@ == old(text)@ + blanks(i as nat),
        decreases n - i,
    {
        text.push(' ');
        assert(text@ =~= old(text)@ + blanks((i + 1) as nat));
        i += 1;
    }
}

/// One line more.
proof fn lemma_next_line(
    lines: Seq<String>,
    line: String,
    start: Seq<Seq<char>>,
    all: Seq<Seq<char>>,
    i: int,
)
    requires
        0 <= i < all.len(),
        line@ == all[i],
        texts(lines) == start + all.take(i),
    ensures
        texts(lines.push(line)) == start + all.take(i + 1),
{
    assert(texts(lines.push(line)) =~= texts(lines).push(line@));
    assert(start + all.take(i + 1) =~= (start + all.take(i)).push(all[i]));
}

/// Puts the lines for the indexes behind the others.
fn push_index_lines(lines: &mut Vec<String>, start: &str)
    ensures
        texts(final(lines)@) == texts(old(lines)@) + index_lines(start@),
{
    let ghost before = texts(lines@);
    let ghost all = index_lines(start@);
    let mut i: usize = 0;
    assert(before =~= before + all.take(0));
    while i < 2
        invariant
            i <= 2,
            all == index_lines(start@),
            all.len() == 2,
            texts(lines@) == before + all.take(i as int),
        decreases 2 - i,
    {
        let (name, index) = INDEXES[i];
        let mut line = start.to_owned();
        line.append(name);
        line.append("` ");
        line.append(index);
        proof {
            lemma_next_line(lines@, line, before, all, i as int);
        }
        lines.push(line);
        i += 1;
    }
    assert(all.take(2) =~= all);
}

/// What stands between the brackets of the statement.
fn body_of(columns: &Vec<(String, String)>) -> (r: String)
    ensures
        r@ == table_body(pairs(columns@)),
{
    let ghost cols = pairs(columns@);
    let ghost all = column_lines(cols);
    let ghost none = Seq::<Seq<char>>::empty();
    let width: usize = longest(columns);
    let mut lines: Vec<String> = Vec::new();
    let mut i: usize = 0;
    assert(texts(lines@) =~= none + all.take(0));
    while i < columns.len()
        invariant
            i <= columns@.len(),
            cols == pairs(columns@),
            all == column_lines(cols),
            width == widest(cols),
            texts(lines@) == none + all.take(i as int),
        decreases columns@.len() - i,
    {
        proof {
            lemma_widest(cols, i as int);
        }
        let name = columns[i].0.as_str();
        let mut line = "    `".to_owned();
        line.append(name);
        line.append("`");
        push_blanks(&mut line, width - bytes_in(name));
        line.append(" ");
        line.append(columns[i].1.as_str());
        proof {
            assert(line@ == column_line(cols[i as int], width as nat));
            lemma_next_line(lines@, line, none, all, i as int);
        }
        lines.push(line);
        i += 1;
    }
    assert(none + all.take(i as int) =~= all);
    push_index_lines(&mut lines, "    INDEX `");
    join(&lines, ",\n")
}

/// Puts the columns to add behind the others.
fn push_additions(lines: &mut Vec<String>, columns: &Vec<(String, String)>)
    ensures
        texts(final(lines)@) == texts(old(lines)@) + add_columns(pairs(columns@)),
{
    let ghost before = texts(lines@);
    let ghost cols = pairs(columns@);
    let mut i: usize = 0;
    assert(cols.take(0) =~= Seq::empty());
    assert(before =~= before + add_columns(cols.take(0)));
    while i < columns.len()
        invariant
            i <= columns@.len(),
            cols == pairs(columns@),
            texts(lines@) == before + add_columns(cols.take(i as int)),
        decreases columns@.len() - i,
    {
        let ghost here = lines@;
        let name = columns[i].0.as_str();
        assert(cols.take(i + 1).drop_last() =~= cols.take(i as int));
        if !same_text(name, "timestamp") {
            let mut line = "ADD COLUMN IF NOT EXISTS `".to_owned();
            line.append(name);
            line.append("` ");
            line.append(columns[i].1.as_str());
            lines.push(line);
            assert(texts(lines@) =~= texts(here).push(line@));
            assert(add_columns(cols.take(i + 1)) =~= add_columns(cols.take(i as int)).push(line@));
        }
        assert(texts(lines@) =~= before + add_columns(cols.take(i + 1)));
        i += 1;
    }
    assert(cols.take(i as int) =~= cols);
}

impl ClickhouseSink {
    /// The statement that brings an existing table up to date.
    fn alter(
        &self,
        columns: &Vec<(String, String)>,
        target: &str,
        on_cluster: &str,
        with_index: bool,
    ) -> (r: String)
        ensures
            r@ == alter_table(self@, pairs(columns@), target@, on_cluster@, with_index),
    {
        let mut actions: Vec<String> = Vec::new();
        push_additions(&mut actions, columns);
        if with_index {
            push_index_lines(&mut actions, "ADD INDEX IF NOT EXISTS `");
        }
        let ghost before = texts(actions@);
        if self.timezone.is_some() {
            let moment = self.timestamp_type();
            let mut start = "MODIFY COLUMN `start_timestamp` ".to_owned();
            start.append(moment.as_str());
            actions.push(start);
            let mut exemplars = "MODIFY COLUMN `exemplars.timestamp` Array(".to_owned();
            exemplars.append(moment.as_str());
            exemplars.append(")");
            actions.push(exemplars);
            assert(texts(actions@) =~= before + modify_moments(self@));
        }
        assert(texts(actions@) =~= alter_actions(self@, pairs(columns@), with_index));
        let mut out = "ALTER TABLE `".to_owned();
        out.append(self.database.as_str());
        out.append("`.`");
        out.append(target);
        out.append("`");
        out.append(on_cluster);
        out.append("\n    ");
        out.append(join(&actions, ",\n    ").as_str());
        out
    }

    /// The statement that makes a table, up to its engine.
    fn create(
        &self,
        columns: &Vec<(String, String)>,
        target: &str,
        on_cluster: &str,
    ) -> (r: String)
        ensures
            r@ == create_table(self@, pairs(columns@), target@, on_cluster@),
    {
        let mut out = "CREATE TABLE IF NOT EXISTS `".to_owned();
        out.append(self.database.as_str());
        out.append("`.`");
        out.append(target);
        out.append("`");
        out.append(on_cluster);
        out.append("\n(\n");
        out.append(body_of(columns).as_str());
        out.append("\n)\n");
        out
    }

    /// The engine of the table that stores.
    fn replicated(&self) -> (r: String)
        ensures
            r@ == replicated_engine(self@),
    {
        let mut out = "ENGINE = ReplicatedMergeTree('/clickhouse/tables/{shard}/".to_owned();
        out.append(self.database.as_str());
        out.append("/");
        out.append(self.local_table().as_str());
        out.append("', '{replica}')\n");
        out
    }

    /// The statement that makes the table that distributes.
    fn distributed(&self, cluster: &str, on_cluster: &str) -> (r: String)
        ensures
            r@ == distributed_table(self@, cluster@, on_cluster@),
    {
        let local = self.local_table();
        let mut out = "CREATE TABLE IF NOT EXISTS `".to_owned();
        out.append(self.database.as_str());
        out.append("`.`");
        out.append(self.table.as_str());
        out.append("`");
        out.append(on_cluster);
        out.append("\nAS `");
        out.append(self.database.as_str());
        out.append("`.`");
        out.append(local.as_str());
        out.append("`\nENGINE = Distributed(`");
        out.append(cluster);
        out.append("`, `");
        out.append(self.database.as_str());
        out.append("`, `");
        out.append(local.as_str());
        out.append("`, cityHash64(`service_name`, `metric_name`))");
        out
    }

    /// The statements that make the table, or bring one up to date. They can be
    /// run again and again.
    pub fn create_table_ddl(&self) -> (r: String)
        ensures
            r@ == ddl(self@, self@.extra_columns),
    {
        self.create_table_ddl_with(self.extra_columns.as_slice())
    }

    /// The same, with other further columns than the sink's own.
    pub fn create_table_ddl_with(&self, extra: &[(String, String)]) -> (r: String)
        ensures
            r@ == ddl(self@, pairs(extra@)),
    {
        let mut columns = self.base_columns();
        push_extra(&mut columns, extra);
        match &self.cluster {
            Some(cluster) => {
                let local = self.local_table();
                let mut on_cluster = " ON CLUSTER `".to_owned();
                on_cluster.append(cluster.as_str());
                on_cluster.append("`");
                let mut out = self.create(&columns, local.as_str(), on_cluster.as_str());
                out.append(self.replicated().as_str());
                out.append(LAYOUT);
                out.append(";\n\n");
                out.append(self.distributed(cluster.as_str(), on_cluster.as_str()).as_str());
                out.append(";\n\n");
                out.append(
                    self.alter(&columns, local.as_str(), on_cluster.as_str(), true).as_str(),
                );
                out.append(";\n\n");
                out.append(
                    self.alter(&columns, self.table.as_str(), on_cluster.as_str(), false).as_str(),
                );
                out
            },
            None => {
                let mut out = self.create(&columns, self.table.as_str(), "");
                out.append("ENGINE = MergeTree\n");
                out.append(LAYOUT);
                out.append(";\n\n");
                out.append(self.alter(&columns, self.table.as_str(), "", true).as_str());
                out
            },
        }
    }
}

proof fn lemma_with_extra(columns: Columns, extra: Columns)
    requires
        forall|i: int, j: int|
            0 <= i < j < columns.len() ==> (#[trigger] columns[i]).0 != (#[trigger] columns[j]).0,
    ensures
        forall|i: int|
            0 <= i < extra.len() ==> has_name(
                with_extra(columns, extra),
                (#[trigger] extra[i]).0,
            ),
        columns.is_prefix_of(with_extra(columns, extra)),
        forall|i: int, j: int|
            #![trigger with_extra(columns, extra)[i], with_extra(columns, extra)[j]]
            0 <= i < j < with_extra(columns, extra).len() ==> with_extra(columns, extra)[i].0
                != with_extra(columns, extra)[j].0,
    decreases extra.len(),
{
    if extra.len() > 0 {
        let rest = extra.drop_last();
        let before = with_extra(columns, rest);
        let after = with_extra(columns, extra);
        lemma_with_extra(columns, rest);
        assert forall|i: int| 0 <= i < extra.len() implies has_name(
            after,
            (#[trigger] extra[i]).0,
        ) by {
            if i < rest.len() {
                assert(rest[i] == extra[i]);
                let k = choose|k: int| 0 <= k < before.len() && (#[trigger] before[k]).0
                    == extra[i].0;
                assert(after[k] == before[k]);
            } else if !has_name(before, extra.last().0) {
                assert(after[after.len() - 1].0 == extra[i].0);
            }
        }
        assert forall|i: int, j: int|
            #![trigger after[i], after[j]]
            0 <= i < j < after.len() implies after[i].0 != after[j].0 by {
            if j == before.len() {
                assert(before[i] == after[i]);
                assert(!has_name(before, extra.last().0));
            } else {
                assert(before[i] == after[i] && before[j] == after[j]);
            }
        }
    }
}

/// The table has the fixed columns in front, every further column is in it, and
/// no name stands there twice.
pub proof fn lemma_columns_of_the_table(sink: SinkView, extra: Columns)
    ensures
        fixed_types(sink).is_prefix_of(with_extra(fixed_types(sink), extra)),
        forall|i: int|
            0 <= i < extra.len() ==> has_name(
                with_extra(fixed_types(sink), extra),
                (#[trigger] extra[i]).0,
            ),
        forall|i: int, j: int|
            #![trigger
                with_extra(fixed_types(sink), extra)[i], with_extra(fixed_types(sink), extra)[j]]
            0 <= i < j < with_extra(fixed_types(sink), extra).len() ==> with_extra(
                fixed_types(sink),
                extra,
            )[i].0 != with_extra(fixed_types(sink), extra)[j].0,
{
    let fixed = fixed_types(sink);
    lemma_table_follows_rows(sink);
    assert forall|i: int, j: int| 0 <= i < j < fixed.len() implies (#[trigger] fixed[i]).0 != (
    #[trigger] fixed[j]).0 by {
        assert(names(fixed)[i] == fixed[i].0 && names(fixed)[j] == fixed[j].0);
        lemma_fixed_names_differ(i, j);
    }
    lemma_with_extra(fixed, extra);
}

/// The column that the table is sorted by is never added or changed; every other
/// one is added where it is missing.
pub proof fn lemma_key_column_is_left_alone(columns: Columns, name: Seq<char>)
    ensures
        has_name(addable(columns), name) <==> has_name(columns, name) && name != "timestamp"@,
    decreases columns.len(),
{
    if columns.len() > 0 {
        let rest = columns.drop_last();
        let last = columns.last();
        lemma_key_column_is_left_alone(rest, name);
        if has_name(columns, name) {
            let i = choose|i: int| 0 <= i < columns.len() && (#[trigger] columns[i]).0 == name;
            if i < rest.len() {
                assert(rest[i].0 == name);
            }
        }
        if has_name(rest, name) {
            let i = choose|i: int| 0 <= i < rest.len() && (#[trigger] rest[i]).0 == name;
            assert(columns[i].0 == name);
        }
        let before = addable(rest);
        let after = addable(columns);
        if has_name(before, name) {
            let i = choose|i: int| 0 <= i < before.len() && (#[trigger] before[i]).0 == name;
            assert(after[i].0 == name);
        }
        if has_name(after, name) {
            let i = choose|i: int| 0 <= i < after.len() && (#[trigger] after[i]).0 == name;
            if i < before.len() {
                assert(before[i].0 == name);
            }
        }
        if last.0 == name {
            assert(columns[columns.len() - 1].0 == name);
            if name != "timestamp"@ {
                assert(after[after.len() - 1].0 == name);
            }
        }
    }
}

/// Texts one behind the other end as the last of them does.
proof fn lemma_joined_end(parts: Seq<Seq<char>>, sep: Seq<char>)
    requires
        parts.len() > 0,
        parts.last().len() > 0,
    ensures
        joined(parts, sep).len() > 0,
        joined(parts, sep).last() == parts.last().last(),
{
    if parts.len() > 1 {
        assert(parts.skip(1).last() == parts.last());
    } else {
        assert(parts.skip(1) =~= Seq::empty());
        assert(joined(parts, sep) =~= parts[0]);
    }
}

/// The types of the table end as the types of the further columns do, or without
/// a semicolon.
proof fn lemma_last_type(columns: Columns, extra: Columns)
    requires
        columns.len() > 0,
        columns.last().0 != "timestamp"@,
        columns.last().1.len() > 0,
        columns.last().1.last() != ';',
        forall|i: int|
            0 <= i < extra.len() && (#[trigger] extra[i]).1.len() > 0 ==> extra[i].1.last() != ';',
        has_name(columns, "timestamp"@),
    ensures
        addable(with_extra(columns, extra)).len() > 0,
        addable(with_extra(columns, extra)).last().1.len() > 0 ==> addable(
            with_extra(columns, extra),
        ).last().1.last() != ';',
        has_name(with_extra(columns, extra), "timestamp"@),
    decreases extra.len(),
{
    if extra.len() > 0 {
        let rest = extra.drop_last();
        assert forall|i: int|
            0 <= i < rest.len() && (#[trigger] rest[i]).1.len() > 0 implies rest[i].1.last()
            != ';' by {
            assert(rest[i] == extra[i]);
        }
        lemma_last_type(columns, rest);
        let before = with_extra(columns, rest);
        if !has_name(before, extra.last().0) {
            assert(extra.last().0 != "timestamp"@);
            assert(before.push(extra.last()).drop_last() =~= before);
            let k = choose|k: int| 0 <= k < before.len() && (#[trigger] before[k]).0
                == "timestamp"@;
            assert(before.push(extra.last())[k].0 == "timestamp"@);
            assert(extra[extra.len() - 1] == extra.last());
        }
    }
}

/// The statements do not end in a semicolon, unless the type of a further column
/// does: who runs them puts the last one.
pub proof fn lemma_no_semicolon_at_the_end(sink: SinkView, extra: Columns)
    requires
        forall|i: int|
            0 <= i < extra.len() && (#[trigger] extra[i]).1.len() > 0 ==> extra[i].1.last() != ';',
    ensures
        ddl(sink, extra).len() > 0,
        ddl(sink, extra).last() != ';',
{
    let fixed = fixed_types(sink);
    let columns = with_extra(fixed, extra);
    let with_index = sink.cluster is None;
    let actions = alter_actions(sink, columns, with_index);
    reveal_strlit("flags");
    reveal_strlit("timestamp");
    reveal_strlit("UInt32");
    assert(fixed.len() == 35);
    assert(fixed[34] == ("flags"@, "UInt32"@));
    assert(fixed[0].0 == "timestamp"@);
    assert("flags"@.len() == 5 && "timestamp"@.len() == 9);
    lemma_last_type(fixed, extra);
    let adds = add_columns(columns);
    let added = addable(columns).last();
    reveal_strlit("` ");
    reveal_strlit(")");
    assert(adds.last() == "ADD COLUMN IF NOT EXISTS `"@ + added.0 + "` "@ + added.1);
    if sink.timezone is Some {
        assert(actions.last() == modify_moments(sink)[1]);
    } else if with_index {
        let lines = index_lines("ADD INDEX IF NOT EXISTS `"@);
        assert(actions.last() == lines[1]);
        reveal_strlit("`exemplars.trace_id` TYPE bloom_filter GRANULARITY 4");
        assert(lines[1].last() == '4');
    } else {
        assert(actions =~= adds);
        assert(added.1.len() > 0 ==> actions.last().last() == added.1.last());
        assert(added.1.len() == 0 ==> actions.last().last() == ' ');
    }
    lemma_joined_end(actions, ",\n    "@);
}

} // verus!
