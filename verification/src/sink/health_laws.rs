//! What the check of a table comes to, in terms of the table.
use crate::error::PipeError;
use crate::event::row::FIXED_COLUMNS;
use crate::scan::{
    begins_with, first_place, is_blank, occurs_in, pieces, trim_end, trim_end_of, trim_start,
    trimmed, without,
};
use crate::scan_laws::{all_blank, lemma_first_place, lemma_joined_push, lemma_trimmed};
use crate::sink::clickhouse::{Columns, SinkView};
use crate::sink::ddl::has_name;
use crate::sink::health::{
    absent, all_mistyped, cells, columns_missing, columns_mistyped, described, follows, judged,
    hints_missing, lemma_what_passes, mistyped, no_table, paths_missing, patterns_missing,
    question, table_columns, table_text, type_of, warning_for, warning_views, warnings_for,
    Health, HealthStep,
};
use crate::sink::laws::{lemma_in_itself, lemma_in_joined, lemma_part_of_part};
use crate::sink::schema::{
    escaped, hinted_paths, lemma_literal_reads_back, lemma_needed_are_inserted, needed_names,
    unescaped, ATTRIBUTES_TYPE,
};
use crate::sink::types::{is_json, json_like};
use crate::text::joined;
use vstd::prelude::*;

verus! {

/// The type that the last column of that name has.
pub open spec fn last_type(columns: Columns, name: Seq<char>, ty: Seq<char>) -> bool {
    exists|i: int|
        0 <= i < columns.len() && #[trigger] columns[i] == (name, ty) && forall|j: int|
            i < j < columns.len() ==> (#[trigger] columns[j]).0 != name
}

/// A column has the type that stands last with its name, and none where there is no
/// column of that name.
pub proof fn lemma_type_is_the_last(columns: Columns, name: Seq<char>)
    ensures
        match type_of(columns, name) {
            Some(ty) => last_type(columns, name, ty),
            None => !has_name(columns, name),
        },
        type_of(columns, name) is Some <==> has_name(columns, name),
    decreases columns.len(),
{
    if columns.len() > 0 {
        let rest = columns.drop_last();
        let n = columns.len() - 1;
        lemma_type_is_the_last(rest, name);
        if columns.last().0 == name {
            assert(columns[n] == (name, columns.last().1));
        } else {
            if let Some(ty) = type_of(rest, name) {
                let i = choose|i: int|
                    0 <= i < rest.len() && #[trigger] rest[i] == (name, ty) && forall|j: int|
                        i < j < rest.len() ==> (#[trigger] rest[j]).0 != name;
                assert(columns[i] == (name, ty));
                assert forall|j: int| i < j < columns.len() implies (#[trigger] columns[j]).0
                    != name by {
                    if j < n {
                        assert(rest[j] == columns[j]);
                    }
                }
            }
            if has_name(columns, name) {
                let i = choose|i: int| 0 <= i < columns.len() && (#[trigger] columns[i]).0 == name;
                assert(rest[i].0 == name);
            }
        }
    }
}

/// A column of attributes is fit to be used: its type is not given, or is the
/// expected JSON type.
pub open spec fn fit(columns: Columns, name: Seq<char>, expected: Seq<char>) -> bool {
    match type_of(columns, name) {
        Some(ty) => ty.len() == 0 || is_json(ty, expected),
        None => true,
    }
}

/// The table has every fixed column and every further one.
pub open spec fn has_all(sink: SinkView, columns: Columns) -> bool {
    &&& forall|i: int| 0 <= i < 35 ==> has_name(columns, #[trigger] FIXED_COLUMNS@[i]@)
    &&& forall|i: int|
        0 <= i < sink.extra_columns.len() ==> has_name(
            columns,
            (#[trigger] sink.extra_columns[i]).0,
        )
}

/// The check passes just where the table has every column, and the three columns of
/// attributes are JSON where their types are given.
pub proof fn lemma_healthy_tables(sink: SinkView, columns: Columns, health: Health)
    requires
        judged(sink, columns, health),
    ensures
        health is Healthy <==> {
            &&& has_all(sink, columns)
            &&& fit(columns, "resource_attributes"@, "JSON"@)
            &&& fit(columns, "attributes"@, "JSON"@)
            &&& fit(columns, "exemplars.attributes"@, "Array(JSON)"@)
        },
{
    lemma_what_passes(sink, columns, health);
    lemma_needed_are_inserted(sink);
    let needed = needed_names(sink);
    let array = "Array("@ + ATTRIBUTES_TYPE@ + ")"@;
    reveal_strlit("Array(");
    reveal_strlit("JSON");
    reveal_strlit(")");
    reveal_strlit("Array(JSON)");
    assert(array =~= "Array(JSON)"@);
    assert forall|i: int| 0 <= i < needed.len() implies (type_of(columns, #[trigger] needed[i])
        is Some <==> has_name(columns, needed[i])) by {
        lemma_type_is_the_last(columns, needed[i]);
    }
    assert forall|i: int| 0 <= i < 35 implies #[trigger] FIXED_COLUMNS@[i]@ == needed[i] by {}
    assert forall|i: int| 0 <= i < sink.extra_columns.len() implies (
    #[trigger] sink.extra_columns[i]).0 == needed[35 + i] by {}
    if has_all(sink, columns) {
        assert forall|i: int| 0 <= i < needed.len() implies type_of(columns, #[trigger] needed[i])
            is Some by {
            if i < 35 {
                assert(has_name(columns, FIXED_COLUMNS@[i]@));
            } else {
                assert(has_name(columns, sink.extra_columns[i - 35].0));
            }
        }
    }
}

/// A type, blanks aside, is JSON with parameters or without.
pub open spec fn json_with_parameters(ty: Seq<char>) -> bool {
    ty == "JSON"@ || (begins_with(ty, "JSON("@) && ty.last() == ')')
}

/// What counts as JSON: `JSON`, or `JSON(` up to a closing bracket; and the same
/// within `Array(` and `)`. Blanks do not matter.
pub proof fn lemma_json_types(ty: Seq<char>)
    ensures
        is_json(ty, "JSON"@) <==> json_with_parameters(without(ty, ' ')),
        is_json(ty, "Array(JSON)"@) <==> {
            let bare = without(ty, ' ');
            &&& begins_with(bare, "Array("@)
            &&& bare.len() > 6
            &&& bare.last() == ')'
            &&& json_with_parameters(bare.subrange(6, bare.len() - 1))
        },
{
    reveal_strlit("JSON");
    reveal_strlit("JSON(");
    reveal_strlit("Array(");
    reveal_strlit("Array(JSON)");
    reveal_with_fuel(without, 12);
    reveal_with_fuel(trim_end_of, 4);
    reveal_with_fuel(json_like, 3);
    let bare = without(ty, ' ');
    assert(without("JSON"@, ' ') =~= "JSON"@);
    assert(without("Array(JSON)"@, ' ') =~= "Array(JSON)"@);
    assert(!begins_with("JSON"@, "Array("@));
    assert("Array(JSON)"@.take(6) =~= "Array("@);
    let inner = "Array(JSON)"@.skip(6);
    assert(inner.drop_last() =~= "JSON"@);
    assert(inner.last() == ')');
    assert(trim_end_of(inner, ')') == "JSON"@);
    if bare == "Array(JSON)"@ {
        assert(bare.subrange(6, bare.len() - 1) =~= "JSON"@);
    }
}

/// The first names that no column has are found, in order.
proof fn lemma_absent_names(list: Seq<Seq<char>>, columns: Columns, i: int)
    requires
        0 <= i < list.len(),
    ensures
        type_of(columns, list[i]) is None <==> absent(list, columns).contains(list[i]),
    decreases list.len(),
{
    let rest = list.drop_last();
    let all = absent(list, columns);
    let before = absent(rest, columns);
    lemma_absent_only(list, columns);
    if type_of(columns, list[i]) is None {
        if i < rest.len() {
            lemma_absent_names(rest, columns, i);
            assert(rest[i] == list[i]);
            let k = choose|k: int| 0 <= k < before.len() && before[k] == list[i];
            assert(all[k] == list[i]);
        } else {
            assert(all[all.len() - 1] == list[i]);
        }
    }
}

proof fn lemma_absent_only(list: Seq<Seq<char>>, columns: Columns)
    ensures
        forall|k: int|
            0 <= k < absent(list, columns).len() ==> type_of(
                columns,
                #[trigger] absent(list, columns)[k],
            ) is None,
    decreases list.len(),
{
    if list.len() > 0 {
        let before = absent(list.drop_last(), columns);
        let all = absent(list, columns);
        lemma_absent_only(list.drop_last(), columns);
        assert forall|k: int| 0 <= k < all.len() implies type_of(columns, #[trigger] all[k])
            is None by {
            if k < before.len() {
                assert(all[k] == before[k]);
            }
        }
    }
}

/// Where columns are missing, the check fails and names the table and each of
/// them.
pub proof fn lemma_missing_columns_are_named(
    sink: SinkView,
    columns: Columns,
    health: Health,
    name: Seq<char>,
)
    requires
        judged(sink, columns, health),
        needed_names(sink).contains(name),
        !has_name(columns, name),
    ensures
        match health {
            Health::Failed(PipeError::Sink(what)) => occurs_in(name, what@) && occurs_in(
                sink.database + "."@ + sink.table,
                what@,
            ),
            _ => false,
        },
{
    let needed = needed_names(sink);
    let i = choose|i: int| 0 <= i < needed.len() && needed[i] == name;
    let missing = absent(needed, columns);
    lemma_type_is_the_last(columns, name);
    lemma_absent_names(needed, columns, i);
    let k = choose|k: int| 0 <= k < missing.len() && missing[k] == name;
    lemma_missing_words(sink, missing, k);
}

/// The message on missing columns names the table and each column.
proof fn lemma_missing_words(sink: SinkView, missing: Seq<Seq<char>>, k: int)
    requires
        0 <= k < missing.len(),
    ensures
        occurs_in(missing[k], columns_missing(sink, missing)),
        occurs_in(sink.database + "."@ + sink.table, columns_missing(sink, missing)),
{
    let start = table_text(sink);
    let list = joined(missing, ", "@);
    let end =
        "：表结构没跟上配置，这些字段插入时会被静默丢掉。重跑 `metricpipe --ddl` 输出的语句（ddl Job）即可补齐"@;
    lemma_table_words(sink, " 缺列 "@, list, end);
    assert(occurs_in(missing[k], columns_missing(sink, missing))) by {
        lemma_in_itself(missing[k]);
        lemma_in_joined(missing, ", "@, k, missing[k]);
        lemma_part_of_part(missing[k], list, start + " 缺列 "@, end);
    }
}

/// A message that begins with the table names it.
proof fn lemma_table_words(sink: SinkView, b: Seq<char>, c: Seq<char>, d: Seq<char>)
    ensures
        occurs_in(sink.database + "."@ + sink.table, table_text(sink) + b + c + d),
{
    let table = sink.database + "."@ + sink.table;
    lemma_in_itself(table);
    lemma_part_of_part(table, table, "表 "@, b + c + d);
    lemma_seven("表 "@, sink.database, "."@, sink.table, b, c, d);
}

/// Seven texts one behind the other, however they are grouped.
proof fn lemma_seven(
    p: Seq<char>,
    q: Seq<char>,
    r: Seq<char>,
    s: Seq<char>,
    b: Seq<char>,
    c: Seq<char>,
    d: Seq<char>,
)
    ensures
        p + (q + r + s) + (b + c + d) == p + q + r + s + b + c + d,
{
    let front = p + q + r + s;
    assert(p + (q + r + s) =~= front);
    assert(front + (b + c + d) =~= front + b + c + d);
}

/// Where the table has every column but one of attributes is not JSON, the check
/// fails and names the table, that column and its type.
pub proof fn lemma_mistyped_columns_are_named(
    sink: SinkView,
    columns: Columns,
    health: Health,
    name: Seq<char>,
    ty: Seq<char>,
)
    requires
        judged(sink, columns, health),
        has_all(sink, columns),
        type_of(columns, name) == Some(ty),
        (name == "resource_attributes"@ || name == "attributes"@) && !fit(
            columns,
            name,
            "JSON"@,
        ) || name == "exemplars.attributes"@ && !fit(columns, name, "Array(JSON)"@),
    ensures
        match health {
            Health::Failed(PipeError::Sink(what)) => occurs_in(name + " 是 "@ + ty, what@)
                && occurs_in(sink.database + "."@ + sink.table, what@),
            _ => false,
        },
{
    let wrong = all_mistyped(columns);
    lemma_wrong_place(columns, name, ty);
    let k = choose|k: int| 0 <= k < wrong.len() && wrong[k] == name + " 是 "@ + ty;
    lemma_absent_none(sink, columns);
    lemma_mistyped_words(sink, wrong, k);
}

/// What is said of a column that is not fit stands among the complaints.
proof fn lemma_wrong_place(columns: Columns, name: Seq<char>, ty: Seq<char>)
    requires
        type_of(columns, name) == Some(ty),
        (name == "resource_attributes"@ || name == "attributes"@) && !fit(
            columns,
            name,
            "JSON"@,
        ) || name == "exemplars.attributes"@ && !fit(columns, name, "Array(JSON)"@),
    ensures
        all_mistyped(columns).contains(name + " 是 "@ + ty),
{
    reveal_strlit("resource_attributes");
    reveal_strlit("attributes");
    reveal_strlit("exemplars.attributes");
    assert("resource_attributes"@.len() == 19 && "attributes"@.len() == 10
        && "exemplars.attributes"@.len() == 20);
    let wrong = all_mistyped(columns);
    let words = name + " 是 "@ + ty;
    let array = "Array("@ + ATTRIBUTES_TYPE@ + ")"@;
    reveal_strlit("Array(");
    reveal_strlit("JSON");
    reveal_strlit(")");
    reveal_strlit("Array(JSON)");
    assert(array =~= "Array(JSON)"@);
    let first = mistyped(columns, "resource_attributes"@, ATTRIBUTES_TYPE@);
    let second = mistyped(columns, "attributes"@, ATTRIBUTES_TYPE@);
    let third = mistyped(columns, "exemplars.attributes"@, array);
    assert(wrong == first + second + third);
    if name == "resource_attributes"@ {
        assert(first[0] == words);
        assert(wrong[0] == words);
    } else if name == "attributes"@ {
        assert(second[0] == words);
        assert(wrong[first.len() as int] == words);
    } else {
        assert(third[0] == words);
        assert(wrong[(first + second).len() as int] == words);
    }
}

/// The message on mistyped columns names the table and each of them.
proof fn lemma_mistyped_words(sink: SinkView, wrong: Seq<Seq<char>>, k: int)
    requires
        0 <= k < wrong.len(),
    ensures
        occurs_in(wrong[k], columns_mistyped(sink, wrong)),
        occurs_in(sink.database + "."@ + sink.table, columns_mistyped(sink, wrong)),
{
    let start = table_text(sink);
    let list = joined(wrong, "、"@);
    let end = "）。DROP（或 RENAME 保留老数据）之后重跑 `metricpipe --ddl` 建新表"@;
    lemma_table_words(sink, " 的属性列不是 JSON 类型（"@, list, end);
    assert(occurs_in(wrong[k], columns_mistyped(sink, wrong))) by {
        lemma_in_itself(wrong[k]);
        lemma_in_joined(wrong, "、"@, k, wrong[k]);
        lemma_part_of_part(wrong[k], list, start + " 的属性列不是 JSON 类型（"@, end);
    }
}

proof fn lemma_absent_none(sink: SinkView, columns: Columns)
    requires
        has_all(sink, columns),
    ensures
        absent(needed_names(sink), columns).len() == 0,
{
    let needed = needed_names(sink);
    let missing = absent(needed, columns);
    lemma_needed_are_inserted(sink);
    if missing.len() > 0 {
        lemma_absent_only(needed, columns);
        lemma_absent_from(needed, columns, 0);
        let i = choose|i: int| 0 <= i < needed.len() && needed[i] == missing[0];
        lemma_type_is_the_last(columns, needed[i]);
        if i < 35 {
            assert(has_name(columns, FIXED_COLUMNS@[i]@));
        } else {
            assert(has_name(columns, sink.extra_columns[i - 35].0));
        }
    }
}

/// What is absent is one of the names.
proof fn lemma_absent_from(list: Seq<Seq<char>>, columns: Columns, k: int)
    requires
        0 <= k < absent(list, columns).len(),
    ensures
        list.contains(absent(list, columns)[k]),
    decreases list.len(),
{
    if list.len() > 0 {
        let rest = list.drop_last();
        let before = absent(rest, columns);
        if k < before.len() {
            lemma_absent_from(rest, columns, k);
            let i = choose|i: int| 0 <= i < rest.len() && rest[i] == before[k];
            assert(list[i] == before[k]);
        } else {
            assert(list[list.len() - 1] == absent(list, columns)[k]);
        }
    }
}

/// The check goes on from one question to the next, and stops where the table is
/// not there: the answer, blanks aside, is not `1`.
pub proof fn lemma_questions(sink: SinkView, text: String, health: Health)
    ensures
        follows(sink, HealthStep::Ping, Ok(text), health) ==> health == Health::Ask(
            HealthStep::Exists,
        ),
        follows(sink, HealthStep::Exists, Ok(text), health) ==> (health == Health::Ask(
            HealthStep::Columns,
        ) <==> trimmed(text@) == seq!['1']),
        follows(sink, HealthStep::Exists, Ok(text), health) && trimmed(text@) != seq!['1']
            ==> match health {
            Health::Failed(PipeError::Sink(what)) => occurs_in(
                sink.database + "."@ + sink.table,
                what@,
            ),
            _ => false,
        },
        follows(sink, HealthStep::Columns, Ok(text), health) ==> judged(
            sink,
            table_columns(text@),
            health,
        ),
{
    reveal_strlit("1");
    assert("1"@ =~= seq!['1']);
    let none = Seq::<char>::empty();
    let end = " 不存在，执行 `metricpipe --ddl` 输出的语句建表"@;
    lemma_table_words(sink, none, none, end);
    assert(table_text(sink) + none + none + end =~= no_table(sink));
}

/// Some hint that was set is not in a type: a path or a left-out path that does not
/// occur in it, or a pattern that occurs neither as it is nor as a literal.
pub open spec fn lacks_a_hint(sink: SinkView, actual: Seq<char>) -> bool {
    ||| exists|i: int|
        0 <= i < sink.attribute_types.len() && !occurs_in(
            (#[trigger] sink.attribute_types[i]).0,
            actual,
        )
    ||| exists|i: int|
        0 <= i < sink.attribute_skip.len() && !occurs_in(
            #[trigger] sink.attribute_skip[i],
            actual,
        )
    ||| exists|i: int|
        0 <= i < sink.attribute_skip_regexp.len() && !occurs_in(
            #[trigger] sink.attribute_skip_regexp[i],
            actual,
        ) && !occurs_in(escaped(sink.attribute_skip_regexp[i]), actual)
}

proof fn lemma_paths_missing(paths: Seq<Seq<char>>, actual: Seq<char>)
    ensures
        paths_missing(paths, actual).len() > 0 <==> exists|i: int|
            0 <= i < paths.len() && !occurs_in(#[trigger] paths[i], actual),
        forall|i: int|
            0 <= i < paths.len() && !occurs_in(#[trigger] paths[i], actual) ==> paths_missing(
                paths,
                actual,
            ).contains(paths[i]),
    decreases paths.len(),
{
    if paths.len() > 0 {
        let rest = paths.drop_last();
        let before = paths_missing(rest, actual);
        let all = paths_missing(paths, actual);
        lemma_paths_missing(rest, actual);
        if before.len() > 0 {
            let i = choose|i: int| 0 <= i < rest.len() && !occurs_in(#[trigger] rest[i], actual);
            assert(paths[i] == rest[i]);
        }
        if !occurs_in(paths.last(), actual) {
            assert(paths[paths.len() - 1] == paths.last());
        }
        assert forall|i: int|
            0 <= i < paths.len() && !occurs_in(#[trigger] paths[i], actual) implies all.contains(
            paths[i],
        ) by {
            if i < rest.len() {
                assert(rest[i] == paths[i]);
                let k = choose|k: int| 0 <= k < before.len() && before[k] == rest[i];
                assert(all[k] == paths[i]);
            } else {
                assert(all[all.len() - 1] == paths[i]);
            }
        }
    }
}

proof fn lemma_patterns_missing(patterns: Seq<Seq<char>>, actual: Seq<char>)
    ensures
        patterns_missing(patterns, actual).len() > 0 <==> exists|i: int|
            0 <= i < patterns.len() && !occurs_in(#[trigger] patterns[i], actual) && !occurs_in(
                escaped(patterns[i]),
                actual,
            ),
    decreases patterns.len(),
{
    if patterns.len() > 0 {
        let rest = patterns.drop_last();
        let before = patterns_missing(rest, actual);
        lemma_patterns_missing(rest, actual);
        if before.len() > 0 {
            let i = choose|i: int|
                0 <= i < rest.len() && !occurs_in(#[trigger] rest[i], actual) && !occurs_in(
                    escaped(rest[i]),
                    actual,
                );
            assert(patterns[i] == rest[i]);
        }
        assert(patterns[patterns.len() - 1] == patterns.last());
        if exists|i: int|
            0 <= i < patterns.len() && !occurs_in(#[trigger] patterns[i], actual) && !occurs_in(
                escaped(patterns[i]),
                actual,
            ) {
            let i = choose|i: int|
                0 <= i < patterns.len() && !occurs_in(#[trigger] patterns[i], actual)
                    && !occurs_in(escaped(patterns[i]), actual);
            if i < rest.len() {
                assert(rest[i] == patterns[i]);
            }
        }
    }
}

/// A column that takes hints is warned about just where its type lacks one, with
/// that type, and every path that it lacks is named.
pub proof fn lemma_warnings(sink: SinkView, columns: Columns, name: Seq<char>)
    ensures
        match type_of(columns, name) {
            Some(actual) => {
                &&& warning_for(sink, columns, name).len() == 1 <==> lacks_a_hint(sink, actual)
                &&& warning_for(sink, columns, name).len() <= 1
                &&& lacks_a_hint(sink, actual) ==> warning_for(sink, columns, name)[0].column
                    == name && warning_for(sink, columns, name)[0].actual == actual
            },
            None => warning_for(sink, columns, name).len() == 0,
        },
        warnings_for(sink, columns) == warning_for(sink, columns, "resource_attributes"@)
            + warning_for(sink, columns, "attributes"@),
{
    if let Some(actual) = type_of(columns, name) {
        let paths = hinted_paths(sink);
        let n = sink.attribute_types.len() as int;
        lemma_paths_missing(paths, actual);
        lemma_patterns_missing(sink.attribute_skip_regexp, actual);
        if exists|i: int| 0 <= i < paths.len() && !occurs_in(#[trigger] paths[i], actual) {
            let i = choose|i: int| 0 <= i < paths.len() && !occurs_in(#[trigger] paths[i], actual);
            if i < n {
                assert(paths[i] == sink.attribute_types[i].0);
            } else {
                assert(paths[i] == sink.attribute_skip[i - n]);
            }
        }
        if exists|i: int|
            0 <= i < sink.attribute_types.len() && !occurs_in(
                (#[trigger] sink.attribute_types[i]).0,
                actual,
            ) {
            let i = choose|i: int|
                0 <= i < sink.attribute_types.len() && !occurs_in(
                    (#[trigger] sink.attribute_types[i]).0,
                    actual,
                );
            assert(paths[i] == sink.attribute_types[i].0);
        }
        if exists|i: int|
            0 <= i < sink.attribute_skip.len() && !occurs_in(
                #[trigger] sink.attribute_skip[i],
                actual,
            ) {
            let i = choose|i: int|
                0 <= i < sink.attribute_skip.len() && !occurs_in(
                    #[trigger] sink.attribute_skip[i],
                    actual,
                );
            assert(paths[n + i] == sink.attribute_skip[i]);
        }
    }
}

/// Columns as the store lists them: a name, a tab and a type a line.
pub open spec fn listed(columns: Columns) -> Seq<Seq<char>> {
    columns.map_values(
        |column: (Seq<char>, Seq<char>)| column.0 + seq!['\t'] + column.1,
    )
}

/// Neither begins nor ends in a blank, and is not empty.
pub open spec fn tight(text: Seq<char>) -> bool {
    text.len() > 0 && !is_blank(text[0]) && !is_blank(text.last())
}

/// A character is nowhere in a text.
pub open spec fn lacks(text: Seq<char>, c: char) -> bool {
    forall|i: int| 0 <= i < text.len() ==> #[trigger] text[i] != c
}

/// Names and types that a list with a line for each can hold.
pub open spec fn listable(columns: Columns) -> bool {
    forall|i: int|
        0 <= i < columns.len() ==> {
            let column = #[trigger] columns[i];
            &&& tight(column.0) && lacks(column.0, '\t') && lacks(column.0, '\n')
            &&& tight(column.1) && lacks(column.1, '\n')
        }
}

/// A piece without the separator behind the others.
pub proof fn lemma_next_piece(s: Seq<char>, piece: Seq<char>, sep: char)
    requires
        lacks(piece, sep),
    ensures
        pieces(s + seq![sep] + piece, sep) == pieces(s, sep).push(piece),
    decreases piece.len(),
{
    let all = s + seq![sep] + piece;
    if piece.len() == 0 {
        assert(all.drop_last() =~= s);
        assert(piece =~= Seq::empty());
    } else {
        let shorter = piece.drop_last();
        assert(all.drop_last() =~= s + seq![sep] + shorter);
        assert forall|i: int| 0 <= i < shorter.len() implies #[trigger] shorter[i] != sep by {
            assert(shorter[i] == piece[i]);
        }
        lemma_next_piece(s, shorter, sep);
        assert(all.last() == piece.last());
        assert(piece[piece.len() - 1] != sep);
        assert(shorter.push(piece.last()) =~= piece);
        let before = pieces(s, sep).push(shorter);
        assert(before.drop_last() =~= pieces(s, sep));
        assert(pieces(all, sep) =~= pieces(s, sep).push(piece));
    }
}

/// A text without the separator is one piece.
pub proof fn lemma_one_piece(s: Seq<char>, sep: char)
    requires
        lacks(s, sep),
    ensures
        pieces(s, sep) == seq![s],
    decreases s.len(),
{
    if s.len() == 0 {
        assert(s =~= Seq::empty());
    } else {
        let shorter = s.drop_last();
        assert forall|i: int| 0 <= i < shorter.len() implies #[trigger] shorter[i] != sep by {
            assert(shorter[i] == s[i]);
        }
        lemma_one_piece(shorter, sep);
        assert(s[s.len() - 1] != sep);
        assert(shorter.push(s.last()) =~= s);
        assert(pieces(s, sep) =~= seq![s]);
    }
}

/// A tight text has nothing to trim.
proof fn lemma_tight(s: Seq<char>)
    requires
        tight(s),
    ensures
        trimmed(s) == s,
{
    assert(trim_start(s) == s);
    assert(trim_end(s) == s);
}

/// A line gives its name and its type.
proof fn lemma_line(name: Seq<char>, ty: Seq<char>)
    requires
        tight(name) && lacks(name, '\t') && lacks(name, '\n'),
        tight(ty) && lacks(ty, '\n'),
    ensures
        tight(name + seq!['\t'] + ty),
        lacks(name + seq!['\t'] + ty, '\n'),
        cells(name + seq!['\t'] + ty) == (name, ty),
{
    let line = name + seq!['\t'] + ty;
    let at = first_place(line, '\t') as int;
    lemma_first_place(line, '\t');
    assert(line[name.len() as int] == '\t');
    assert(line[0] == name[0] && line.last() == ty.last());
    assert forall|i: int| 0 <= i < line.len() implies #[trigger] line[i] != '\n' by {
        if i < name.len() {
            assert(line[i] == name[i]);
        } else if i > name.len() {
            assert(line[i] == ty[i - name.len() - 1]);
        }
    }
    if at < name.len() {
        assert(line[at] == name[at]);
    }
    assert(at == name.len());
    assert(line.take(at) =~= name);
    assert(line.skip(at + 1) =~= ty);
    lemma_tight(ty);
}

/// What the store lists is what the check reads: each column with its type, in
/// order.
pub proof fn lemma_columns_read_back(columns: Columns)
    requires
        listable(columns),
        columns.len() > 0,
    ensures
        table_columns(joined(listed(columns), seq!['\n'])) == columns,
{
    lemma_lines_read_back(columns);
}

proof fn lemma_lines_read_back(columns: Columns)
    requires
        listable(columns),
        columns.len() > 0,
    ensures
        pieces(joined(listed(columns), seq!['\n']), '\n') == listed(columns),
        described(listed(columns)) == columns,
    decreases columns.len(),
{
    let rest = columns.drop_last();
    let last = columns.last();
    let lines = listed(columns);
    let before = listed(rest);
    let line = last.0 + seq!['\t'] + last.1;
    assert(columns[columns.len() - 1] == last);
    lemma_line(last.0, last.1);
    lemma_tight(line);
    assert(lines.drop_last() =~= before);
    assert(lines =~= before.push(line));
    lemma_joined_push(before, line, seq!['\n']);
    if rest.len() > 0 {
        assert forall|i: int| 0 <= i < rest.len() implies {
            let column = #[trigger] rest[i];
            &&& tight(column.0) && lacks(column.0, '\t') && lacks(column.0, '\n')
            &&& tight(column.1) && lacks(column.1, '\n')
        } by {
            assert(rest[i] == columns[i]);
        }
        lemma_lines_read_back(rest);
        lemma_next_piece(joined(before, seq!['\n']), line, '\n');
    } else {
        lemma_one_piece(line, '\n');
        assert(lines =~= seq![line]);
        assert(before =~= Seq::empty());
    }
    assert(lines.last() == line);
    assert(described(before) =~= rest);
    assert(described(lines) == rest.push(last));
    assert(rest.push(last) =~= columns);
}

/// A line feed at the end of a list changes nothing, nor does a blank line.
pub proof fn lemma_blank_lines_do_not_matter(answer: Seq<char>, blank: Seq<char>)
    requires
        all_blank(blank),
        lacks(blank, '\n'),
    ensures
        table_columns(answer + seq!['\n'] + blank) == table_columns(answer),
{
    let lines = pieces(answer, '\n');
    lemma_next_piece(answer, blank, '\n');
    assert(lines.push(blank).drop_last() =~= lines);
    assert(lines.push(blank).last() == blank);
    lemma_trimmed(blank);
    if trimmed(blank).len() > 0 {
        let (front, back) = choose|front: Seq<char>, back: Seq<char>|
            blank == #[trigger] (front + trimmed(blank) + back) && all_blank(front) && all_blank(
                back,
            );
        assert(blank[front.len() as int] == trimmed(blank)[0]);
        assert(is_blank(blank[front.len() as int]));
    }
}

/// What is asked: whether the store answers, whether the table is there, and what
/// columns it has, the literals saying the database and the table.
pub proof fn lemma_what_is_asked(sink: SinkView)
    ensures
        question(sink, HealthStep::Ping) == "SELECT 1"@,
        question(sink, HealthStep::Exists) == "EXISTS TABLE `"@ + (sink.database + "`.`"@
            + sink.table) + "`"@,
        exists|database: Seq<char>, table: Seq<char>|
            question(sink, HealthStep::Columns)
                == #[trigger] ("SELECT name, type FROM system.columns WHERE database = '"@
                + database + "' AND table = '"@ + table + "' FORMAT TSV"@) && unescaped(database)
                == Some(sink.database) && unescaped(table) == Some(sink.table),
{
    lemma_literal_reads_back(sink.database);
    lemma_literal_reads_back(sink.table);
    assert("EXISTS TABLE `"@ + (sink.database + "`.`"@ + sink.table) + "`"@
        =~= "EXISTS TABLE `"@ + sink.database + "`.`"@ + sink.table + "`"@);
    let database = escaped(sink.database);
    let table = escaped(sink.table);
    assert(question(sink, HealthStep::Columns)
        == "SELECT name, type FROM system.columns WHERE database = '"@ + database
        + "' AND table = '"@ + table + "' FORMAT TSV"@);
}

/// A failed question ends the check with its error, whatever was asked.
pub proof fn lemma_errors_end_the_check(
    sink: SinkView,
    step: HealthStep,
    err: PipeError,
    health: Health,
)
    ensures
        follows(sink, step, Err(err), health) ==> health == Health::Failed(err),
{
}

/// A warning names every path that the type lacks.
pub proof fn lemma_warnings_name_the_paths(
    sink: SinkView,
    columns: Columns,
    name: Seq<char>,
    path: Seq<char>,
)
    requires
        hinted_paths(sink).contains(path),
        match type_of(columns, name) {
            Some(actual) => !occurs_in(path, actual),
            None => false,
        },
    ensures
        warning_for(sink, columns, name).len() == 1,
        occurs_in(path, warning_for(sink, columns, name)[0].missing),
{
    let actual = type_of(columns, name)->Some_0;
    let paths = hinted_paths(sink);
    let missing = hints_missing(sink, actual);
    let first = paths_missing(paths, actual);
    let i = choose|i: int| 0 <= i < paths.len() && paths[i] == path;
    lemma_paths_missing(paths, actual);
    assert(!occurs_in(paths[i], actual));
    let k = choose|k: int| 0 <= k < first.len() && first[k] == path;
    assert(missing[k] == path);
    lemma_in_itself(path);
    lemma_in_joined(missing, "、"@, k, path);
}

/// A table that passes is passed with the warnings for the two columns that take hints.
pub proof fn lemma_passed_with_warnings(sink: SinkView, columns: Columns, health: Health)
    requires
        judged(sink, columns, health),
    ensures
        match health {
            Health::Healthy(warnings) => warning_views(warnings@) == warning_for(
                sink,
                columns,
                "resource_attributes"@,
            ) + warning_for(sink, columns, "attributes"@),
            _ => true,
        },
{
}

} // verus!
