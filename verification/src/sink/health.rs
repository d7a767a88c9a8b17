//! Whether the table is there, has its columns, and has them with the right
//! types.
//!
//! The check is a run of questions to the store. [`ClickhouseSink::health_query`]
//! says what to ask, [`ClickhouseSink::health_next`] what the answer comes to.
use crate::error::PipeError;
use crate::scan::{first_place, has_part, occurs_in, pieces, place_of, split, trim, trimmed};
use crate::sink::clickhouse::{pairs, ClickhouseSink, Columns, SinkView};
use crate::sink::schema::{
    escape_literal, escaped, hinted_paths, needed_names, ATTRIBUTES_TYPE,
};
use crate::sink::types::{is_json, is_json_type};
use crate::text::{chars_of, join, joined, part_of, same_text, text_of, texts};
use vstd::prelude::*;

verus! {

/// A question of the check.
#[derive(Clone, Copy, Debug, PartialEq, Eq, Structural)]
pub enum HealthStep {
    /// Whether the store answers.
    Ping,
    /// Whether the table is there.
    Exists,
    /// What columns the table has.
    Columns,
}

/// A hint on attributes that the table does not have. It works all the same.
#[derive(Debug, PartialEq)]
pub struct HintWarning {
    /// The column.
    pub column: String,
    /// The type that it has.
    pub actual: String,
    /// What is missing from the type.
    pub missing: String,
}

/// What a [`HintWarning`] says.
#[verifier::ext_equal]
pub struct WarningView {
    pub column: Seq<char>,
    pub actual: Seq<char>,
    pub missing: Seq<char>,
}

impl View for HintWarning {
    type V = WarningView;

    open spec fn view(&self) -> WarningView {
        WarningView { column: self.column@, actual: self.actual@, missing: self.missing@ }
    }
}

/// What some warnings say.
pub open spec fn warning_views(warnings: Seq<HintWarning>) -> Seq<WarningView> {
    warnings.map_values(|warning: HintWarning| warning@)
}

/// What to do after an answer.
#[derive(Debug)]
pub enum Health {
    /// Ask this next.
    Ask(HealthStep),
    /// The table cannot be used.
    Failed(PipeError),
    /// The table can be used.
    Healthy(Vec<HintWarning>),
}

/// What a question is.
pub open spec fn question(sink: SinkView, step: HealthStep) -> Seq<char> {
    match step {
        HealthStep::Ping => "SELECT 1"@,
        HealthStep::Exists => "EXISTS TABLE `"@ + sink.database + "`.`"@ + sink.table + "`"@,
        HealthStep::Columns => "SELECT name, type FROM system.columns WHERE database = '"@
            + escaped(sink.database) + "' AND table = '"@ + escaped(sink.table) + "' FORMAT TSV"@,
    }
}

/// A line of an answer: a name, and the type behind a tab.
pub open spec fn cells(line: Seq<char>) -> (Seq<char>, Seq<char>) {
    let at = first_place(line, '\t') as int;
    if at < line.len() {
        (line.take(at), trimmed(line.skip(at + 1)))
    } else {
        (line, Seq::empty())
    }
}

/// The columns that some lines describe, blank ones aside.
pub open spec fn described(lines: Seq<Seq<char>>) -> Columns
    decreases lines.len(),
{
    if lines.len() == 0 {
        Seq::empty()
    } else {
        let before = described(lines.drop_last());
        let line = trimmed(lines.last());
        if line.len() == 0 {
            before
        } else {
            before.push(cells(line))
        }
    }
}

/// The columns that an answer describes.
pub open spec fn table_columns(answer: Seq<char>) -> Columns {
    described(pieces(answer, '\n'))
}

/// The type of the column of that name; of two with one name the last counts.
pub open spec fn type_of(columns: Columns, name: Seq<char>) -> Option<Seq<char>>
    decreases columns.len(),
{
    if columns.len() == 0 {
        None
    } else if columns.last().0 == name {
        Some(columns.last().1)
    } else {
        type_of(columns.drop_last(), name)
    }
}

/// The names that no column has.
pub open spec fn absent(names: Seq<Seq<char>>, columns: Columns) -> Seq<Seq<char>>
    decreases names.len(),
{
    if names.len() == 0 {
        Seq::empty()
    } else if type_of(columns, names.last()) is None {
        absent(names.drop_last(), columns).push(names.last())
    } else {
        absent(names.drop_last(), columns)
    }
}

/// What is said of a column of attributes that has another type. Where no type
/// was given nothing is.
pub open spec fn mistyped(columns: Columns, name: Seq<char>, expected: Seq<char>) -> Seq<
    Seq<char>,
> {
    match type_of(columns, name) {
        Some(ty) => if ty.len() > 0 && !is_json(ty, expected) {
            seq![name + " 是 "@ + ty]
        } else {
            Seq::empty()
        },
        None => Seq::empty(),
    }
}

/// What is said of the columns of attributes that have other types.
pub open spec fn all_mistyped(columns: Columns) -> Seq<Seq<char>> {
    mistyped(columns, "resource_attributes"@, ATTRIBUTES_TYPE@) + mistyped(
        columns,
        "attributes"@,
        ATTRIBUTES_TYPE@,
    ) + mistyped(columns, "exemplars.attributes"@, "Array("@ + ATTRIBUTES_TYPE@ + ")"@)
}

/// The paths that a type does not hold.
pub open spec fn paths_missing(paths: Seq<Seq<char>>, actual: Seq<char>) -> Seq<Seq<char>>
    decreases paths.len(),
{
    if paths.len() == 0 {
        Seq::empty()
    } else if !occurs_in(paths.last(), actual) {
        paths_missing(paths.drop_last(), actual).push(paths.last())
    } else {
        paths_missing(paths.drop_last(), actual)
    }
}

/// A type holds a pattern: as it is, or as it stands in a literal.
pub open spec fn holds_pattern(pattern: Seq<char>, actual: Seq<char>) -> bool {
    occurs_in(pattern, actual) || occurs_in(escaped(pattern), actual)
}

/// The patterns that a type does not hold.
pub open spec fn patterns_missing(patterns: Seq<Seq<char>>, actual: Seq<char>) -> Seq<Seq<char>>
    decreases patterns.len(),
{
    if patterns.len() == 0 {
        Seq::empty()
    } else if !holds_pattern(patterns.last(), actual) {
        patterns_missing(patterns.drop_last(), actual).push(patterns.last())
    } else {
        patterns_missing(patterns.drop_last(), actual)
    }
}

/// The hints that a type does not hold.
pub open spec fn hints_missing(sink: SinkView, actual: Seq<char>) -> Seq<Seq<char>> {
    paths_missing(hinted_paths(sink), actual) + patterns_missing(
        sink.attribute_skip_regexp,
        actual,
    )
}

/// The warning for a column of attributes whose type does not hold all hints.
pub open spec fn warning_for(sink: SinkView, columns: Columns, name: Seq<char>) -> Seq<
    WarningView,
> {
    match type_of(columns, name) {
        Some(actual) => {
            let missing = hints_missing(sink, actual);
            if missing.len() == 0 {
                Seq::empty()
            } else {
                seq![WarningView { column: name, actual, missing: joined(missing, "、"@) }]
            }
        },
        None => Seq::empty(),
    }
}

/// The warnings for the columns that take hints.
pub open spec fn warnings_for(sink: SinkView, columns: Columns) -> Seq<WarningView> {
    warning_for(sink, columns, "resource_attributes"@) + warning_for(
        sink,
        columns,
        "attributes"@,
    )
}

/// The table, as messages name it.
pub open spec fn table_text(sink: SinkView) -> Seq<char> {
    "表 "@ + sink.database + "."@ + sink.table
}

/// What is said where the table is not there.
pub open spec fn no_table(sink: SinkView) -> Seq<char> {
    table_text(sink) + " 不存在，执行 `metricpipe --ddl` 输出的语句建表"@
}

/// What is said where columns are missing.
pub open spec fn columns_missing(sink: SinkView, missing: Seq<Seq<char>>) -> Seq<char> {
    table_text(sink) + " 缺列 "@ + joined(missing, ", "@)
        + "：表结构没跟上配置，这些字段插入时会被静默丢掉。重跑 `metricpipe --ddl` 输出的语句（ddl Job）即可补齐"@
}

/// What is said where columns of attributes have other types.
pub open spec fn columns_mistyped(sink: SinkView, wrong: Seq<Seq<char>>) -> Seq<char> {
    table_text(sink) + " 的属性列不是 JSON 类型（"@ + joined(wrong, "、"@)
        + "）。DROP（或 RENAME 保留老数据）之后重跑 `metricpipe --ddl` 建新表"@
}

/// What the last answer comes to: first, no column may be missing; then, the
/// columns of attributes must be JSON; hints that are missing are only warned
/// about.
pub open spec fn judged(sink: SinkView, columns: Columns, health: Health) -> bool {
    let missing = absent(needed_names(sink), columns);
    let wrong = all_mistyped(columns);
    if missing.len() > 0 {
        match health {
            Health::Failed(PipeError::Sink(what)) => what@ == columns_missing(sink, missing),
            _ => false,
        }
    } else if wrong.len() > 0 {
        match health {
            Health::Failed(PipeError::Sink(what)) => what@ == columns_mistyped(sink, wrong),
            _ => false,
        }
    } else {
        match health {
            Health::Healthy(warnings) => warning_views(warnings@) == warnings_for(sink, columns),
            _ => false,
        }
    }
}

/// What an answer comes to.
pub open spec fn follows(
    sink: SinkView,
    step: HealthStep,
    answer: Result<String, PipeError>,
    health: Health,
) -> bool {
    match answer {
        Err(err) => health == Health::Failed(err),
        Ok(text) => match step {
            HealthStep::Ping => health == Health::Ask(HealthStep::Exists),
            HealthStep::Exists => if trimmed(text@) == "1"@ {
                health == Health::Ask(HealthStep::Columns)
            } else {
                match health {
                    Health::Failed(PipeError::Sink(what)) => what@ == no_table(sink),
                    _ => false,
                }
            },
            HealthStep::Columns => judged(sink, table_columns(text@), health),
        },
    }
}

fn cells_of(line: &Vec<char>) -> (r: (String, String))
    ensures
        (r.0@, r.1@) == cells(line@),
{
    let at: usize = place_of(line, '\t');
    if at < line.len() {
        let name = part_of(line, 0, at);
        let rest = part_of(line, at + 1, line.len());
        assert(name@ =~= line@.take(at as int));
        assert(rest@ =~= line@.skip(at + 1));
        (text_of(&name), text_of(&trim(&rest)))
    } else {
        (text_of(line), String::new())
    }
}

/// The columns that an answer describes.
fn read_columns(answer: &str) -> (r: Vec<(String, String)>)
    ensures
        pairs(r@) == table_columns(answer@),
{
    let ghost lines = pieces(answer@, '\n');
    let parts = split(&chars_of(answer), '\n');
    let mut columns: Vec<(String, String)> = Vec::new();
    let mut i: usize = 0;
    assert(lines.take(0) =~= Seq::empty());
    assert(pairs(columns@) =~= described(lines.take(0)));
    while i < parts.len()
        invariant
            i <= parts@.len(),
            lines == parts@.map_values(|piece: Vec<char>| piece@),
            pairs(columns@) == described(lines.take(i as int)),
        decreases parts@.len() - i,
    {
        let ghost before = pairs(columns@);
        let line = trim(&parts[i]);
        proof {
            assert(lines.take(i + 1).drop_last() =~= lines.take(i as int));
            assert(lines.take(i + 1).last() == parts@[i as int]@);
        }
        if line.len() > 0 {
            columns.push(cells_of(&line));
            assert(pairs(columns@) =~= before.push(cells(line@)));
        }
        i += 1;
    }
    assert(lines.take(i as int) =~= lines);
    columns
}

/// The type of the column of that name.
fn find_type(columns: &Vec<(String, String)>, name: &str) -> (r: Option<String>)
    ensures
        match r {
            Some(ty) => type_of(pairs(columns@), name@) == Some(ty@),
            None => type_of(pairs(columns@), name@) is None,
        },
{
    let ghost all = pairs(columns@);
    let mut i: usize = columns.len();
    assert(all.take(i as int) =~= all);
    while i > 0
        invariant
            i <= columns@.len(),
            all == pairs(columns@),
            type_of(all, name@) == type_of(all.take(i as int), name@),
        decreases i,
    {
        i -= 1;
        assert(all.take(i + 1).drop_last() =~= all.take(i as int));
        assert(all.take(i + 1).last() == all[i as int]);
        if same_text(columns[i].0.as_str(), name) {
            return Some(columns[i].1.clone());
        }
    }
    None
}

/// The names that no column has.
fn find_absent(names: &Vec<String>, columns: &Vec<(String, String)>) -> (r: Vec<String>)
    ensures
        texts(r@) == absent(texts(names@), pairs(columns@)),
{
    let ghost all = texts(names@);
    let mut r: Vec<String> = Vec::new();
    let mut i: usize = 0;
    assert(all.take(0) =~= Seq::empty());
    assert(texts(r@) =~= absent(all.take(0), pairs(columns@)));
    while i < names.len()
        invariant
            i <= names@.len(),
            all == texts(names@),
            texts(r@) == absent(all.take(i as int), pairs(columns@)),
        decreases names@.len() - i,
    {
        let ghost before = texts(r@);
        proof {
            assert(all.take(i + 1).drop_last() =~= all.take(i as int));
            assert(all.take(i + 1).last() == all[i as int]);
        }
        if find_type(columns, names[i].as_str()).is_none() {
            r.push(names[i].clone());
            assert(texts(r@) =~= before.push(all[i as int]));
        }
        i += 1;
    }
    assert(all.take(i as int) =~= all);
    r
}

/// Puts what is to be said of a column of attributes behind the others.
fn push_mistyped(
    out: &mut Vec<String>,
    columns: &Vec<(String, String)>,
    name: &str,
    expected: &str,
)
    ensures
        texts(final(out)@) == texts(old(out)@) + mistyped(pairs(columns@), name@, expected@),
{
    if let Some(ty) = find_type(columns, name) {
        if !ty.as_str().is_empty() && !is_json_type(ty.as_str(), expected) {
            let mut what = name.to_owned();
            what.append(" 是 ");
            what.append(ty.as_str());
            out.push(what);
        }
    }
    assert(texts(out@) =~= texts(old(out)@) + mistyped(pairs(columns@), name@, expected@));
}

/// The paths that a type does not hold.
fn find_paths_missing(paths: &Vec<String>, actual: &str) -> (r: Vec<String>)
    ensures
        texts(r@) == paths_missing(texts(paths@), actual@),
{
    let ghost all = texts(paths@);
    let chars = chars_of(actual);
    let mut r: Vec<String> = Vec::new();
    let mut i: usize = 0;
    assert(all.take(0) =~= Seq::empty());
    assert(texts(r@) =~= paths_missing(all.take(0), actual@));
    while i < paths.len()
        invariant
            i <= paths@.len(),
            all == texts(paths@),
            chars@ == actual@,
            texts(r@) == paths_missing(all.take(i as int), actual@),
        decreases paths@.len() - i,
    {
        let ghost before = texts(r@);
        proof {
            assert(all.take(i + 1).drop_last() =~= all.take(i as int));
            assert(all.take(i + 1).last() == all[i as int]);
        }
        if !has_part(&chars, &chars_of(paths[i].as_str())) {
            r.push(paths[i].clone());
            assert(texts(r@) =~= before.push(all[i as int]));
        }
        i += 1;
    }
    assert(all.take(i as int) =~= all);
    r
}

/// The patterns that a type does not hold.
fn find_patterns_missing(patterns: &Vec<String>, actual: &str) -> (r: Vec<String>)
    ensures
        texts(r@) == patterns_missing(texts(patterns@), actual@),
{
    let ghost all = texts(patterns@);
    let chars = chars_of(actual);
    let mut r: Vec<String> = Vec::new();
    let mut i: usize = 0;
    assert(all.take(0) =~= Seq::empty());
    assert(texts(r@) =~= patterns_missing(all.take(0), actual@));
    while i < patterns.len()
        invariant
            i <= patterns@.len(),
            all == texts(patterns@),
            chars@ == actual@,
            texts(r@) == patterns_missing(all.take(i as int), actual@),
        decreases patterns@.len() - i,
    {
        let ghost before = texts(r@);
        proof {
            assert(all.take(i + 1).drop_last() =~= all.take(i as int));
            assert(all.take(i + 1).last() == all[i as int]);
        }
        let literal = escape_literal(patterns[i].as_str());
        if !has_part(&chars, &chars_of(patterns[i].as_str())) && !has_part(
            &chars,
            &chars_of(literal.as_str()),
        ) {
            r.push(patterns[i].clone());
            assert(texts(r@) =~= before.push(all[i as int]));
        }
        i += 1;
    }
    assert(all.take(i as int) =~= all);
    r
}

impl ClickhouseSink {
    /// Where the check starts.
    pub fn health_start() -> (r: HealthStep)
        ensures
            r == HealthStep::Ping,
    {
        HealthStep::Ping
    }

    /// What to ask.
    pub fn health_query(&self, step: HealthStep) -> (r: String)
        ensures
            r@ == question(self@, step),
    {
        match step {
            HealthStep::Ping => "SELECT 1".to_owned(),
            HealthStep::Exists => {
                let mut out = "EXISTS TABLE `".to_owned();
                out.append(self.database.as_str());
                out.append("`.`");
                out.append(self.table.as_str());
                out.append("`");
                out
            },
            HealthStep::Columns => {
                let mut out =
                    "SELECT name, type FROM system.columns WHERE database = '".to_owned();
                out.append(escape_literal(self.database.as_str()).as_str());
                out.append("' AND table = '");
                out.append(escape_literal(self.table.as_str()).as_str());
                out.append("' FORMAT TSV");
                out
            },
        }
    }

    /// The table, as messages name it.
    fn table_words(&self) -> (r: String)
        ensures
            r@ == table_text(self@),
    {
        let mut out = "表 ".to_owned();
        out.append(self.database.as_str());
        out.append(".");
        out.append(self.table.as_str());
        out
    }

    /// The warning for a column that takes hints.
    fn push_warning(
        &self,
        out: &mut Vec<HintWarning>,
        columns: &Vec<(String, String)>,
        name: &str,
    )
        ensures
            warning_views(final(out)@) == warning_views(old(out)@) + warning_for(
                self@,
                pairs(columns@),
                name@,
            ),
    {
        if let Some(actual) = find_type(columns, name) {
            let mut missing = find_paths_missing(&self.path_hints(), actual.as_str());
            let mut patterns = find_patterns_missing(
                &self.attribute_skip_regexp,
                actual.as_str(),
            );
            let ghost first = missing@;
            let ghost more = patterns@;
            missing.append(&mut patterns);
            assert(texts(missing@) =~= texts(first) + texts(more));
            assert(texts(missing@).len() == missing@.len());
            if missing.len() > 0 {
                out.push(
                    HintWarning {
                        column: name.to_owned(),
                        actual,
                        missing: join(&missing, "、"),
                    },
                );
            }
        }
        assert(warning_views(out@) =~= warning_views(old(out)@) + warning_for(
            self@,
            pairs(columns@),
            name@,
        ));
    }

    /// What the columns of the table come to.
    pub fn judge_columns(&self, answer: &str) -> (r: Health)
        ensures
            judged(self@, table_columns(answer@), r),
    {
        let columns = read_columns(answer);
        let missing = find_absent(&self.expected_columns(), &columns);
        assert(texts(missing@).len() == missing@.len());
        if missing.len() > 0 {
            let mut what = self.table_words();
            what.append(" 缺列 ");
            what.append(join(&missing, ", ").as_str());
            what.append(
                "：表结构没跟上配置，这些字段插入时会被静默丢掉。重跑 `metricpipe --ddl` 输出的语句（ddl Job）即可补齐",
            );
            return Health::Failed(PipeError::Sink(what));
        }
        let mut arrays = "Array(".to_owned();
        arrays.append(ATTRIBUTES_TYPE);
        arrays.append(")");
        let mut wrong: Vec<String> = Vec::new();
        push_mistyped(&mut wrong, &columns, "resource_attributes", ATTRIBUTES_TYPE);
        push_mistyped(&mut wrong, &columns, "attributes", ATTRIBUTES_TYPE);
        push_mistyped(&mut wrong, &columns, "exemplars.attributes", arrays.as_str());
        assert(texts(wrong@) =~= all_mistyped(pairs(columns@)));
        assert(texts(wrong@).len() == wrong@.len());
        if wrong.len() > 0 {
            let mut what = self.table_words();
            what.append(" 的属性列不是 JSON 类型（");
            what.append(join(&wrong, "、").as_str());
            what.append("）。DROP（或 RENAME 保留老数据）之后重跑 `metricpipe --ddl` 建新表");
            return Health::Failed(PipeError::Sink(what));
        }
        let mut warnings: Vec<HintWarning> = Vec::new();
        self.push_warning(&mut warnings, &columns, "resource_attributes");
        self.push_warning(&mut warnings, &columns, "attributes");
        assert(warning_views(warnings@) =~= warnings_for(self@, pairs(columns@)));
        Health::Healthy(warnings)
    }

    /// What an answer comes to: the next question, or the end of the check.
    pub fn health_next(&self, step: HealthStep, answer: Result<String, PipeError>) -> (r: Health)
        ensures
            follows(self@, step, answer, r),
    {
        match answer {
            Err(err) => Health::Failed(err),
            Ok(text) => match step {
                HealthStep::Ping => Health::Ask(HealthStep::Exists),
                HealthStep::Exists => {
                    let words = text_of(&trim(&chars_of(text.as_str())));
                    if same_text(words.as_str(), "1") {
                        Health::Ask(HealthStep::Columns)
                    } else {
                        let mut what = self.table_words();
                        what.append(" 不存在，执行 `metricpipe --ddl` 输出的语句建表");
                        Health::Failed(PipeError::Sink(what))
                    }
                },
                HealthStep::Columns => self.judge_columns(text.as_str()),
            },
        }
    }
}

/// Nothing is missing just where every name has a column.
proof fn lemma_absent(names: Seq<Seq<char>>, columns: Columns)
    ensures
        absent(names, columns).len() == 0 <==> forall|i: int|
            0 <= i < names.len() ==> type_of(columns, #[trigger] names[i]) is Some,
    decreases names.len(),
{
    if names.len() > 0 {
        let rest = names.drop_last();
        lemma_absent(rest, columns);
        if absent(names, columns).len() == 0 {
            assert forall|i: int| 0 <= i < names.len() implies type_of(
                columns,
                #[trigger] names[i],
            ) is Some by {
                if i < rest.len() {
                    assert(rest[i] == names[i]);
                }
            }
        }
        if forall|i: int| 0 <= i < names.len() ==> type_of(columns, #[trigger] names[i]) is Some {
            assert forall|i: int| 0 <= i < rest.len() implies type_of(
                columns,
                #[trigger] rest[i],
            ) is Some by {
                assert(rest[i] == names[i]);
            }
            assert(type_of(columns, names[names.len() - 1]) is Some);
        }
    }
}

/// A table passes just where it has every column that an insert gives values for,
/// and no column of attributes has a type that is given and is not JSON.
pub proof fn lemma_what_passes(sink: SinkView, columns: Columns, health: Health)
    requires
        judged(sink, columns, health),
    ensures
        health is Healthy <==> {
            &&& forall|i: int|
                0 <= i < needed_names(sink).len() ==> type_of(
                    columns,
                    #[trigger] needed_names(sink)[i],
                ) is Some
            &&& mistyped(columns, "resource_attributes"@, ATTRIBUTES_TYPE@).len() == 0
            &&& mistyped(columns, "attributes"@, ATTRIBUTES_TYPE@).len() == 0
            &&& mistyped(
                columns,
                "exemplars.attributes"@,
                "Array("@ + ATTRIBUTES_TYPE@ + ")"@,
            ).len() == 0
        },
{
    lemma_absent(needed_names(sink), columns);
}

} // verus!
