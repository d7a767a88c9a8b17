//! Where and how events are stored in ClickHouse.
use crate::scan::{cut_end, trim_end_of};
use crate::text::{chars_of, text_of, texts};
use vstd::prelude::*;

verus! {

/// How long something takes.
pub uninterp spec fn duration_nanos(duration: std::time::Duration) -> nat;

/// `std::time::Duration::from_secs`: so many whole seconds.
#[verifier::external_body]
fn seconds(secs: u64) -> (r: std::time::Duration)
    ensures
        duration_nanos(r) == secs * 1_000_000_000,
{
    std::time::Duration::from_secs(secs)
}

/// The format of the body of an insert.
#[derive(Clone, Copy, Debug, PartialEq, Eq, Structural)]
pub enum InsertFormat {
    /// An array of values a row. The statement names the columns, and the values
    /// line up with them by place.
    JsonCompactEachRow,
    /// An object a row, its columns named. The store leaves out what the table
    /// has no column for.
    JsonEachRow,
}

impl InsertFormat {
    /// The name of the format in a statement.
    pub open spec fn name(self) -> Seq<char> {
        match self {
            InsertFormat::JsonCompactEachRow => "JSONCompactEachRow"@,
            InsertFormat::JsonEachRow => "JSONEachRow"@,
        }
    }

    /// The name of the format in a statement.
    pub fn as_str(self) -> (r: &'static str)
        ensures
            r@ == self.name(),
    {
        match self {
            InsertFormat::JsonCompactEachRow => "JSONCompactEachRow",
            InsertFormat::JsonEachRow => "JSONEachRow",
        }
    }
}

impl Default for InsertFormat {
    fn default() -> (r: InsertFormat)
        ensures
            r == InsertFormat::JsonCompactEachRow,
    {
        InsertFormat::JsonCompactEachRow
    }
}

/// Names with their types.
pub type Columns = Seq<(Seq<char>, Seq<char>)>;

/// What names and types say.
pub open spec fn pairs(list: Seq<(String, String)>) -> Columns {
    list.map_values(|pair: (String, String)| (pair.0@, pair.1@))
}

/// What a text that may be missing says.
pub open spec fn maybe(text: Option<String>) -> Option<Seq<char>> {
    match text {
        Some(text) => Some(text@),
        None => None,
    }
}

/// A table in ClickHouse, and how to reach it.
#[derive(Debug)]
pub struct ClickhouseSink {
    pub(crate) endpoint: String,
    pub(crate) database: String,
    pub(crate) table: String,
    pub(crate) cluster: Option<String>,
    pub(crate) timezone: Option<chrono_tz::Tz>,
    pub(crate) extra_columns: Vec<(String, String)>,
    pub(crate) attribute_types: Vec<(String, String)>,
    pub(crate) attribute_skip: Vec<String>,
    pub(crate) attribute_skip_regexp: Vec<String>,
    pub(crate) user: Option<String>,
    pub(crate) password: Option<String>,
    pub(crate) timeout: std::time::Duration,
    pub(crate) async_insert: bool,
    pub(crate) compress: bool,
    pub(crate) insert_format: InsertFormat,
}

/// What a [`ClickhouseSink`] says.
#[verifier::ext_equal]
pub struct SinkView {
    pub endpoint: Seq<char>,
    pub database: Seq<char>,
    pub table: Seq<char>,
    /// The cluster that holds the table, where it is a distributed one.
    pub cluster: Option<Seq<char>>,
    /// The zone that the moments are shown in.
    pub timezone: Option<chrono_tz::Tz>,
    /// The columns beside the fixed ones.
    pub extra_columns: Columns,
    /// Paths in the attributes with the types to store them as.
    pub attribute_types: Columns,
    /// Paths in the attributes that are not stored.
    pub attribute_skip: Seq<Seq<char>>,
    /// Patterns of paths in the attributes that are not stored.
    pub attribute_skip_regexp: Seq<Seq<char>>,
    pub user: Option<Seq<char>>,
    pub password: Option<Seq<char>>,
    pub timeout: std::time::Duration,
    pub async_insert: bool,
    pub compress: bool,
    pub insert_format: InsertFormat,
}

impl View for ClickhouseSink {
    type V = SinkView;

    open(crate) spec fn view(&self) -> SinkView {
        SinkView {
            endpoint: self.endpoint@,
            database: self.database@,
            table: self.table@,
            cluster: maybe(self.cluster),
            timezone: self.timezone,
            extra_columns: pairs(self.extra_columns@),
            attribute_types: pairs(self.attribute_types@),
            attribute_skip: texts(self.attribute_skip@),
            attribute_skip_regexp: texts(self.attribute_skip_regexp@),
            user: maybe(self.user),
            password: maybe(self.password),
            timeout: self.timeout,
            async_insert: self.async_insert,
            compress: self.compress,
            insert_format: self.insert_format,
        }
    }
}

/// A sink with nothing set but where the table is and how long to wait.
pub open spec fn plain_sink(
    endpoint: Seq<char>,
    database: Seq<char>,
    table: Seq<char>,
    timeout: std::time::Duration,
) -> SinkView {
    SinkView {
        endpoint: trim_end_of(endpoint, '/'),
        database,
        table,
        cluster: None,
        timezone: None,
        extra_columns: Seq::empty(),
        attribute_types: Seq::empty(),
        attribute_skip: Seq::empty(),
        attribute_skip_regexp: Seq::empty(),
        user: None,
        password: None,
        timeout,
        async_insert: false,
        compress: true,
        insert_format: InsertFormat::JsonCompactEachRow,
    }
}

impl ClickhouseSink {
    /// A table at an endpoint such as `http://127.0.0.1:8123`.
    pub fn new(endpoint: &str, database: &str, table: &str) -> (r: ClickhouseSink)
        ensures
            r@ == plain_sink(endpoint@, database@, table@, r@.timeout),
            duration_nanos(r@.timeout) == 30_000_000_000,
    {
        let r = ClickhouseSink {
            endpoint: text_of(&cut_end(&chars_of(endpoint), '/')),
            database: database.to_owned(),
            table: table.to_owned(),
            cluster: None,
            timezone: None,
            extra_columns: Vec::new(),
            attribute_types: Vec::new(),
            attribute_skip: Vec::new(),
            attribute_skip_regexp: Vec::new(),
            user: None,
            password: None,
            timeout: seconds(30),
            async_insert: false,
            compress: true,
            insert_format: InsertFormat::default(),
        };
        assert(r@ =~= plain_sink(endpoint@, database@, table@, r@.timeout));
        r
    }

    /// The format of the bodies of inserts.
    pub fn insert_format(self, format: InsertFormat) -> (r: ClickhouseSink)
        ensures
            r@ == (SinkView { insert_format: format, ..self@ }),
    {
        ClickhouseSink { insert_format: format, ..self }
    }

    /// The cluster, as ClickHouse names it. With one there are two tables: one
    /// that stores, on every node, and one over it that distributes.
    pub fn cluster(self, cluster: &str) -> (r: ClickhouseSink)
        ensures
            r@ == (SinkView { cluster: Some(cluster@), ..self@ }),
    {
        ClickhouseSink { cluster: Some(cluster.to_owned()), ..self }
    }

    /// The zone that moments are shown in. What is stored does not depend on it:
    /// moments are sent with their offset.
    pub fn timezone(self, timezone: chrono_tz::Tz) -> (r: ClickhouseSink)
        ensures
            r@ == (SinkView { timezone: Some(timezone), ..self@ }),
    {
        ClickhouseSink { timezone: Some(timezone), ..self }
    }

    /// The columns beside the fixed ones, with their types.
    pub fn extra_columns(self, columns: Vec<(String, String)>) -> (r: ClickhouseSink)
        ensures
            r@ == (SinkView { extra_columns: pairs(columns@), ..self@ }),
    {
        ClickhouseSink { extra_columns: columns, ..self }
    }

    /// Paths in the attributes that are stored with a type of their own.
    pub fn attribute_types(self, types: Vec<(String, String)>) -> (r: ClickhouseSink)
        ensures
            r@ == (SinkView { attribute_types: pairs(types@), ..self@ }),
    {
        ClickhouseSink { attribute_types: types, ..self }
    }

    /// Paths in the attributes that are not stored.
    pub fn attribute_skip(self, paths: Vec<String>) -> (r: ClickhouseSink)
        ensures
            r@ == (SinkView { attribute_skip: texts(paths@), ..self@ }),
    {
        ClickhouseSink { attribute_skip: paths, ..self }
    }

    /// Patterns of paths in the attributes that are not stored.
    pub fn attribute_skip_regexp(self, patterns: Vec<String>) -> (r: ClickhouseSink)
        ensures
            r@ == (SinkView { attribute_skip_regexp: texts(patterns@), ..self@ }),
    {
        ClickhouseSink { attribute_skip_regexp: patterns, ..self }
    }

    /// Who is asking.
    pub fn auth(self, user: &str, password: &str) -> (r: ClickhouseSink)
        ensures
            r@ == (SinkView { user: Some(user@), password: Some(password@), ..self@ }),
    {
        ClickhouseSink {
            user: Some(user.to_owned()),
            password: Some(password.to_owned()),
            ..self
        }
    }

    /// How long a request may take.
    pub fn timeout(self, timeout: std::time::Duration) -> (r: ClickhouseSink)
        ensures
            r@ == (SinkView { timeout, ..self@ }),
    {
        ClickhouseSink { timeout, ..self }
    }

    /// Whether the store gathers inserts into larger ones.
    pub fn async_insert(self, enabled: bool) -> (r: ClickhouseSink)
        ensures
            r@ == (SinkView { async_insert: enabled, ..self@ }),
    {
        ClickhouseSink { async_insert: enabled, ..self }
    }

    /// The name of the table.
    pub fn table_name(&self) -> (r: &str)
        ensures
            r@ == self@.table,
    {
        self.table.as_str()
    }

    /// The format that is set.
    pub fn format(&self) -> (r: InsertFormat)
        ensures
            r == self@.insert_format,
    {
        self.insert_format
    }

    /// Whether the bodies of inserts are compressed.
    pub fn compress(self, enabled: bool) -> (r: ClickhouseSink)
        ensures
            r@ == (SinkView { compress: enabled, ..self@ }),
    {
        ClickhouseSink { compress: enabled, ..self }
    }
}

} // verus!
