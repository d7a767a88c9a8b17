//! What holds between the statements that make the table and the check of it.
use crate::scan::{begins_with, occurs_at, occurs_in, without};
use crate::sink::clickhouse::{Columns, SinkView};
use crate::sink::ddl::{has_name, lemma_columns_of_the_table, with_extra};
use crate::sink::health::{
    hints_missing, holds_pattern, judged, lemma_what_passes, paths_missing, patterns_missing,
    type_of, warning_views, Health,
};
use crate::sink::schema::{
    escaped, fixed_types, hint_list, hinted_paths, hinted_type, lemma_literal_reads_back,
    needed_names, unescaped, ATTRIBUTES_TYPE,
};
use crate::sink::types::is_json;
use crate::text::{each_after, joined};
use vstd::prelude::*;

verus! {

/// Leaving a character out goes piece by piece.
proof fn lemma_without_append(a: Seq<char>, b: Seq<char>, c: char)
    ensures
        without(a + b, c) == without(a, c) + without(b, c),
    decreases b.len(),
{
    if b.len() == 0 {
        assert(a + b =~= a);
        assert(without(a, c) + without(b, c) =~= without(a, c));
    } else {
        assert((a + b).drop_last() =~= a + b.drop_last());
        lemma_without_append(a, b.drop_last(), c);
        assert(without(a + b, c) =~= without(a, c) + without(b, c));
    }
}

/// The type that attributes are made with is a JSON type.
proof fn lemma_hinted_type_is_json(sink: SinkView)
    ensures
        is_json(hinted_type(sink), ATTRIBUTES_TYPE@),
{
    if hint_list(sink).len() > 0 {
        let list = joined(hint_list(sink), ", "@);
        let front = ATTRIBUTES_TYPE@ + "("@;
        reveal_strlit("JSON");
        reveal_strlit("(");
        reveal_strlit(")");
        reveal_strlit("JSON(");
        reveal_strlit("Array(");
        reveal_with_fuel(without, 6);
        assert(front =~= "JSON("@);
        assert(without("JSON("@, ' ') =~= "JSON("@);
        assert(without(")"@, ' ') =~= ")"@);
        assert(without("JSON"@, ' ') =~= "JSON"@);
        lemma_without_append(front + list, ")"@, ' ');
        lemma_without_append(front, list, ' ');
        let actual = without(hinted_type(sink), ' ');
        assert(actual == "JSON("@ + without(list, ' ') + ")"@);
        assert(actual.take(5) =~= "JSON("@);
        assert("JSON"@[0] != "Array("@[0]);
        if begins_with("JSON"@, "Array("@) {
            assert("JSON"@.len() >= "Array("@.len());
        }
    }
}

/// A column of a table without two of one name has the type that it was made
/// with.
proof fn lemma_type_of(columns: Columns, at: int)
    requires
        0 <= at < columns.len(),
        forall|i: int, j: int|
            #![trigger columns[i], columns[j]]
            0 <= i < j < columns.len() ==> columns[i].0 != columns[j].0,
    ensures
        type_of(columns, columns[at].0) == Some(columns[at].1),
    decreases columns.len(),
{
    if at < columns.len() - 1 {
        let rest = columns.drop_last();
        assert(columns[columns.len() - 1].0 != columns[at].0);
        assert forall|i: int, j: int|
            #![trigger rest[i], rest[j]]
            0 <= i < j < rest.len() implies rest[i].0 != rest[j].0 by {
            assert(columns[i] == rest[i] && columns[j] == rest[j]);
        }
        lemma_type_of(rest, at);
    }
}

/// What stands in a part stands in the whole.
pub proof fn lemma_part_of_part(
    part: Seq<char>,
    middle: Seq<char>,
    before: Seq<char>,
    after: Seq<char>,
)
    requires
        occurs_in(part, middle),
    ensures
        occurs_in(part, before + middle + after),
{
    let at = choose|at: int| #[trigger] occurs_at(part, middle, at);
    let whole = before + middle + after;
    let there = before.len() + at;
    assert(whole.subrange(there, there + part.len()) =~= middle.subrange(at, at + part.len()));
    assert(occurs_at(part, whole, there));
}

/// A text stands in itself.
pub proof fn lemma_in_itself(text: Seq<char>)
    ensures
        occurs_in(text, text),
{
    assert(text.subrange(0, text.len() as int) =~= text);
    assert(occurs_at(text, text, 0));
}

/// Each of some texts stands in all of them one behind the other.
proof fn lemma_in_each_after(parts: Seq<Seq<char>>, sep: Seq<char>, i: int, part: Seq<char>)
    requires
        0 <= i < parts.len(),
        occurs_in(part, parts[i]),
    ensures
        occurs_in(part, each_after(parts, sep)),
    decreases parts.len(),
{
    let rest = parts.drop_last();
    let empty = Seq::<char>::empty();
    if i < rest.len() {
        lemma_in_each_after(rest, sep, i, part);
        lemma_part_of_part(part, each_after(rest, sep), empty, sep + parts.last());
        assert(empty + each_after(rest, sep) + (sep + parts.last()) =~= each_after(parts, sep));
    } else {
        lemma_part_of_part(part, parts.last(), each_after(rest, sep) + sep, empty);
        assert(each_after(rest, sep) + sep + parts.last() + empty =~= each_after(parts, sep));
    }
}

/// Each of some texts stands in all of them together.
pub proof fn lemma_in_joined(parts: Seq<Seq<char>>, sep: Seq<char>, i: int, part: Seq<char>)
    requires
        0 <= i < parts.len(),
        occurs_in(part, parts[i]),
    ensures
        occurs_in(part, joined(parts, sep)),
{
    let rest = parts.skip(1);
    let empty = Seq::<char>::empty();
    if i == 0 {
        lemma_part_of_part(part, parts[0], empty, each_after(rest, sep));
        assert(empty + parts[0] + each_after(rest, sep) =~= joined(parts, sep));
    } else {
        assert(rest[i - 1] == parts[i]);
        lemma_in_each_after(rest, sep, i - 1, part);
        lemma_part_of_part(part, each_after(rest, sep), parts[0], empty);
        assert(parts[0] + each_after(rest, sep) + empty =~= joined(parts, sep));
    }
}

/// What stands in a hint stands in the type that attributes are made with.
proof fn lemma_in_hinted_type(sink: SinkView, i: int, part: Seq<char>)
    requires
        0 <= i < hint_list(sink).len(),
        occurs_in(part, hint_list(sink)[i]),
    ensures
        occurs_in(part, hinted_type(sink)),
{
    lemma_in_joined(hint_list(sink), ", "@, i, part);
    lemma_part_of_part(
        part,
        joined(hint_list(sink), ", "@),
        ATTRIBUTES_TYPE@ + "("@,
        ")"@,
    );
}

/// Nothing is missing where every path is there.
proof fn lemma_no_path_missing(paths: Seq<Seq<char>>, actual: Seq<char>)
    requires
        forall|i: int| 0 <= i < paths.len() ==> occurs_in(#[trigger] paths[i], actual),
    ensures
        paths_missing(paths, actual).len() == 0,
    decreases paths.len(),
{
    if paths.len() > 0 {
        let rest = paths.drop_last();
        assert forall|i: int| 0 <= i < rest.len() implies occurs_in(
            #[trigger] rest[i],
            actual,
        ) by {
            assert(rest[i] == paths[i]);
        }
        assert(occurs_in(paths[paths.len() - 1], actual));
        lemma_no_path_missing(rest, actual);
    }
}

/// Nothing is missing where every pattern is there.
proof fn lemma_no_pattern_missing(patterns: Seq<Seq<char>>, actual: Seq<char>)
    requires
        forall|i: int| 0 <= i < patterns.len() ==> holds_pattern(#[trigger] patterns[i], actual),
    ensures
        patterns_missing(patterns, actual).len() == 0,
    decreases patterns.len(),
{
    if patterns.len() > 0 {
        let rest = patterns.drop_last();
        assert forall|i: int| 0 <= i < rest.len() implies holds_pattern(
            #[trigger] rest[i],
            actual,
        ) by {
            assert(rest[i] == patterns[i]);
        }
        assert(holds_pattern(patterns[patterns.len() - 1], actual));
        lemma_no_pattern_missing(rest, actual);
    }
}

/// The type that attributes are made with holds every hint.
proof fn lemma_every_hint_is_there(sink: SinkView)
    ensures
        hints_missing(sink, hinted_type(sink)).len() == 0,
{
    let actual = hinted_type(sink);
    let paths = hinted_paths(sink);
    let patterns = sink.attribute_skip_regexp;
    let empty = Seq::<char>::empty();
    let n = sink.attribute_types.len() as int;
    let m = sink.attribute_skip.len() as int;
    assert forall|i: int| 0 <= i < paths.len() implies occurs_in(#[trigger] paths[i], actual) by {
        let path = paths[i];
        let hint = hint_list(sink)[i];
        lemma_in_itself(path);
        if i < n {
            let ty = sink.attribute_types[i].1;
            lemma_part_of_part(path, path, empty, " "@ + ty);
            assert(empty + path + (" "@ + ty) =~= hint);
        } else {
            assert(path == sink.attribute_skip[i - n]);
            lemma_part_of_part(path, path, "SKIP "@, empty);
            assert("SKIP "@ + path + empty =~= hint);
        }
        lemma_in_hinted_type(sink, i, path);
    }
    lemma_no_path_missing(paths, actual);
    assert forall|i: int| 0 <= i < patterns.len() implies holds_pattern(
        #[trigger] patterns[i],
        actual,
    ) by {
        let literal = escaped(patterns[i]);
        let hint = hint_list(sink)[n + m + i];
        lemma_in_itself(literal);
        lemma_part_of_part(literal, literal, "SKIP REGEXP '"@, "'"@);
        assert("SKIP REGEXP '"@ + literal + "'"@ == hint);
        lemma_in_hinted_type(sink, n + m + i, literal);
    }
    lemma_no_pattern_missing(patterns, actual);
}

/// A table with the columns that the statements make passes the check, and
/// nothing is warned about.
pub proof fn lemma_made_table_passes(sink: SinkView, health: Health)
    requires
        judged(sink, with_extra(fixed_types(sink), sink.extra_columns), health),
    ensures
        match health {
            Health::Healthy(warnings) => warnings@.len() == 0,
            _ => false,
        },
{
    let fixed = fixed_types(sink);
    let columns = with_extra(fixed, sink.extra_columns);
    lemma_columns_of_the_table(sink, sink.extra_columns);
    lemma_hinted_type_is_json(sink);
    assert forall|i: int| 0 <= i < needed_names(sink).len() implies type_of(
        columns,
        #[trigger] needed_names(sink)[i],
    ) is Some by {
        if i < 35 {
            assert(columns[i] == fixed[i]);
            lemma_type_of(columns, i);
        } else {
            let name = sink.extra_columns[i - 35].0;
            assert(has_name(columns, name));
            let k = choose|k: int| 0 <= k < columns.len() && (#[trigger] columns[k]).0 == name;
            lemma_type_of(columns, k);
        }
    }
    assert(columns[9] == fixed[9] && columns[10] == fixed[10] && columns[33] == fixed[33]);
    assert(fixed[9] == ("resource_attributes"@, hinted_type(sink)));
    assert(fixed[10] == ("attributes"@, hinted_type(sink)));
    assert(fixed[33] == ("exemplars.attributes"@, "Array(JSON)"@));
    lemma_type_of(columns, 9);
    lemma_type_of(columns, 10);
    lemma_type_of(columns, 33);
    reveal_strlit("Array(JSON)");
    reveal_strlit("Array(");
    reveal_strlit("JSON");
    reveal_strlit(")");
    assert("Array("@ + ATTRIBUTES_TYPE@ + ")"@ =~= "Array(JSON)"@);
    lemma_what_passes(sink, columns, health);
    lemma_every_hint_is_there(sink);
    let warnings = health->Healthy_0;
    assert(warning_views(warnings@).len() == 0);
}

/// The type of attributes is told the typed paths first, each with its type, then the
/// paths that are left out, then the patterns, as literals that say them.
pub proof fn lemma_hints_in_order(sink: SinkView, i: int)
    ensures
        hint_list(sink).len() == sink.attribute_types.len() + sink.attribute_skip.len()
            + sink.attribute_skip_regexp.len(),
        0 <= i < sink.attribute_types.len() ==> hint_list(sink)[i] == sink.attribute_types[i].0
            + seq![' '] + sink.attribute_types[i].1,
        0 <= i < sink.attribute_skip.len() ==> hint_list(sink)[sink.attribute_types.len() + i]
            == "SKIP "@ + sink.attribute_skip[i],
        0 <= i < sink.attribute_skip_regexp.len() ==> exists|literal: Seq<char>|
            hint_list(sink)[sink.attribute_types.len() + sink.attribute_skip.len() + i]
                == #[trigger] ("SKIP REGEXP '"@ + literal + "'"@) && unescaped(literal) == Some(
                sink.attribute_skip_regexp[i],
            ),
        hint_list(sink).len() == 0 ==> hinted_type(sink) == "JSON"@,
        hint_list(sink).len() > 0 ==> hinted_type(sink) == "JSON"@ + "("@ + joined(
            hint_list(sink),
            ", "@,
        ) + ")"@,
{
    reveal_strlit(" ");
    assert(" "@ =~= seq![' ']);
    if 0 <= i < sink.attribute_skip_regexp.len() {
        lemma_literal_reads_back(sink.attribute_skip_regexp[i]);
        let literal = escaped(sink.attribute_skip_regexp[i]);
        assert(hint_list(sink)[sink.attribute_types.len() + sink.attribute_skip.len() + i]
            == "SKIP REGEXP '"@ + literal + "'"@);
    }
}

} // verus!
