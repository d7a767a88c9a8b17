use std::io::Read;
use std::sync::Arc;
use std::time::Duration;

use flate2::read::GzDecoder;
use metricpipe::double::Double;
use metricpipe::event::FIXED_COLUMNS;
use metricpipe::json::{Json, JsonMap, Number};
use metricpipe::sink::body::{Insert, ROWS_PER_CHUNK};
use metricpipe::sink::ddl::INDEXES;
use metricpipe::sink::health::{Health, HealthStep, HintWarning};
use metricpipe::sink::insert::{reply, Request, Row};
use metricpipe::sink::schema::{
    escape_literal, ATTRIBUTES_TYPE, COLUMNS_HEAD, COLUMNS_QUANTILES, COLUMNS_TAIL,
};
use metricpipe::sink::types::is_json_type;
use metricpipe::sink::{ClickhouseSink, InsertFormat};
use metricpipe::{Exemplar, MetricEvent, MetricType, PipeError};
use serde_json::Value;

/// 2026-09-07 03:04:08.914293456 UTC
const NOW: u64 = 1_788_750_248_914_293_456;

fn double(value: f64) -> Double {
    Double {
        bits: value.to_bits(),
    }
}

fn value_of(json: &Json) -> Value {
    match json {
        Json::Null => Value::Null,
        Json::Bool(b) => Value::from(*b),
        Json::Number(Number::PosInt(n)) => Value::from(*n),
        Json::Number(Number::NegInt(n)) => Value::from(*n),
        Json::Number(Number::Float(d)) => Value::from(f64::from_bits(d.bits)),
        Json::String(s) => Value::from(s.as_str()),
        Json::Array(items) => Value::Array(items.iter().map(value_of).collect()),
        Json::Object(map) => Value::Object(
            (0..map.len())
                .map(|i| {
                    let (key, value) = map.entry(i);
                    (key.clone(), value_of(value))
                })
                .collect(),
        ),
    }
}

fn encoded(row: &Row) -> Vec<u8> {
    let value = match row {
        Row::Values(values) => Value::Array(values.iter().map(value_of).collect()),
        Row::Named(columns) => Value::Object(
            columns
                .iter()
                .map(|(name, value)| (name.clone(), value_of(value)))
                .collect(),
        ),
    };
    serde_json::to_vec(&value).unwrap()
}

/// The request that stores some events.
fn write(sink: &ClickhouseSink, events: &[MetricEvent]) -> Request {
    let mut insert = sink.start_insert();
    for event in events {
        insert.push_row(&encoded(&sink.row(event))).unwrap();
    }
    let (body, compressed) = insert.finish().unwrap();
    sink.insert_request(body, compressed)
}

fn header<'a>(request: &'a Request, name: &str) -> Option<&'a str> {
    request
        .headers
        .iter()
        .find(|(key, _)| key == name)
        .map(|(_, value)| value.as_str())
}

fn setting<'a>(request: &'a Request, name: &str) -> Option<&'a str> {
    request
        .settings
        .iter()
        .find(|(key, _)| key == name)
        .map(|(_, value)| value.as_str())
}

fn rows(body: &str) -> Vec<Vec<Value>> {
    body.lines()
        .map(|line| {
            serde_json::from_str::<Vec<Value>>(line).unwrap_or_else(|err| panic!("{err}: {line}"))
        })
        .collect()
}

fn col(name: &str) -> usize {
    FIXED_COLUMNS
        .iter()
        .position(|c| *c == name)
        .unwrap_or_else(|| panic!("没有 {name} 这列"))
}

fn point() -> MetricEvent {
    MetricEvent {
        timestamp: NOW,
        start_timestamp: NOW - 60_000_000_000,
        metric_name: Arc::from("压缩测试"),
        metric_type: MetricType::Histogram,
        service_name: Arc::from("order-service"),
        count: 3,
        sum: double(9.5),
        bucket_counts: vec![1, 2],
        explicit_bounds: vec![double(5.0)],
        exemplars: vec![Exemplar {
            timestamp: NOW + 1,
            value: double(7.5),
            trace_id: "e89a476882236ce0f1186d1522c8f59f".into(),
            span_id: "e8b0e73e2132f21c".into(),
            attributes: JsonMap::new(),
        }],
        ..Default::default()
    }
}

#[test]
fn ddl_lists_every_column_and_index() {
    let sink = ClickhouseSink::new("http://127.0.0.1:8123", "logs", "otel_metric");
    let ddl = sink.create_table_ddl();
    assert!(
        ddl.starts_with("CREATE TABLE IF NOT EXISTS `logs`.`otel_metric`"),
        "{ddl}"
    );
    assert!(
        ddl.contains("`timestamp`              DateTime64(9),"),
        "{ddl}"
    );
    assert!(
        ddl.contains("`exemplars.timestamp`    Array(DateTime64(9)),"),
        "{ddl}"
    );
    assert!(ddl.contains("`attributes`             JSON,"), "{ddl}");
    assert!(
        ddl.contains("`exemplars.attributes`   Array(JSON),"),
        "{ddl}"
    );
    for (name, _) in COLUMNS_HEAD
        .iter()
        .chain(COLUMNS_QUANTILES.iter())
        .chain(COLUMNS_TAIL.iter())
    {
        assert!(
            ddl.contains(&format!("`{name}`")),
            "DDL 少了 {name}:\n{ddl}"
        );
    }
    for (name, _) in INDEXES {
        assert!(ddl.contains(&format!("INDEX `{name}`")), "{ddl}");
        assert!(
            ddl.contains(&format!("ADD INDEX IF NOT EXISTS `{name}`")),
            "{ddl}"
        );
    }
    assert!(ddl.contains("ORDER BY (`service_name`, `metric_name`, toDateTime(`timestamp`))"));
    assert!(
        !ddl.contains("ADD COLUMN IF NOT EXISTS `timestamp`"),
        "{ddl}"
    );
    assert!(
        ddl.contains("ADD COLUMN IF NOT EXISTS `start_timestamp`"),
        "{ddl}"
    );
    assert!(!ddl.contains("MODIFY COLUMN"), "没配时区别去动列: {ddl}");
    assert!(!ddl.trim_end().ends_with(';'), "{ddl}");
}

#[test]
fn table_columns_follow_the_fixed_column_order() {
    let sink = ClickhouseSink::new("http://127.0.0.1:8123", "logs", "otel_metric").extra_columns(
        vec![
            ("cluster".to_owned(), "LowCardinality(String)".to_owned()),
            ("env".to_owned(), "LowCardinality(String)".to_owned()),
        ],
    );
    let base: Vec<String> = sink.base_columns().into_iter().map(|(n, _)| n).collect();
    assert_eq!(base, FIXED_COLUMNS);

    let columns = sink.insert_columns();
    assert_eq!(columns.len(), FIXED_COLUMNS.len() + 2);
    assert_eq!(&columns[FIXED_COLUMNS.len()..], ["cluster", "env"]);

    let sql = sink.insert_sql();
    assert!(
        sql.starts_with("INSERT INTO `logs`.`otel_metric` (`timestamp`, `start_timestamp`, "),
        "{sql}"
    );
    assert!(
        sql.contains("`exemplars.attributes`, `flags`, `cluster`, `env`) FORMAT JSONCompactEachRow"),
        "{sql}"
    );

    let plain = sink.insert_format(InsertFormat::JsonEachRow).insert_sql();
    assert_eq!(plain, "INSERT INTO `logs`.`otel_metric` FORMAT JSONEachRow");
}

#[test]
fn json_type_check_accepts_parameters_and_rejects_map() {
    assert!(is_json_type("JSON", "JSON"));
    assert!(is_json_type("JSON(max_dynamic_paths=2048)", "JSON"));
    assert!(is_json_type("Array(JSON)", "Array(JSON)"));
    assert!(is_json_type(
        "Array(JSON(max_dynamic_paths=64))",
        "Array(JSON)"
    ));
    assert!(!is_json_type("Map(LowCardinality(String), String)", "JSON"));
    assert!(!is_json_type("Array(Map(String, String))", "Array(JSON)"));
    assert!(!is_json_type("JSON", "Array(JSON)"));
    assert!(!is_json_type("String", "JSON"));
}

#[test]
fn timezone_goes_into_create_but_not_into_the_key_column() {
    let sink = ClickhouseSink::new("http://127.0.0.1:8123", "logs", "otel_metric")
        .timezone(chrono_tz::Asia::Shanghai);
    let ddl = sink.create_table_ddl();
    assert!(
        ddl.contains("`timestamp`              DateTime64(9, 'Asia/Shanghai'),"),
        "{ddl}"
    );
    assert!(
        ddl.contains("`start_timestamp`        DateTime64(9, 'Asia/Shanghai'),"),
        "{ddl}"
    );
    assert!(
        ddl.contains("MODIFY COLUMN `start_timestamp` DateTime64(9, 'Asia/Shanghai')"),
        "{ddl}"
    );
    assert!(
        ddl.contains("MODIFY COLUMN `exemplars.timestamp` Array(DateTime64(9, 'Asia/Shanghai'))"),
        "{ddl}"
    );
    assert!(
        !ddl.contains("MODIFY COLUMN `timestamp`"),
        "键列不能 MODIFY，整条 ALTER 都会失败: {ddl}"
    );
}

#[test]
fn attribute_hints_and_skips_go_into_the_json_type() {
    let sink = ClickhouseSink::new("http://127.0.0.1:8123", "logs", "otel_metric")
        .attribute_types(vec![
            ("http.route".to_owned(), "String".to_owned()),
            ("http.response.status_code".to_owned(), "Int64".to_owned()),
        ])
        .attribute_skip(vec!["debug.payload".to_owned()])
        .attribute_skip_regexp(vec![r"^debug\..*".to_owned()]);
    let ddl = sink.create_table_ddl();

    let expect = "JSON(http.route String, http.response.status_code Int64, \
                      SKIP debug.payload, SKIP REGEXP '^debug\\\\..*')";
    let column_type = |name: &str| {
        ddl.lines()
            .find_map(|line| line.trim().strip_prefix(&format!("`{name}` ")))
            .unwrap_or_else(|| panic!("DDL 里没有 {name}:\n{ddl}"))
            .trim()
            .trim_end_matches(',')
            .to_owned()
    };
    assert_eq!(column_type("attributes"), expect);
    assert_eq!(column_type("resource_attributes"), expect);
    assert!(
        ddl.contains("`exemplars.attributes`   Array(JSON),"),
        "{ddl}"
    );
    assert!(
        ddl.contains(&format!("ADD COLUMN IF NOT EXISTS `attributes` {expect}")),
        "{ddl}"
    );
    assert!(ddl.contains(r"SKIP REGEXP '^debug\\..*'"), "{ddl}");
    let plain = ClickhouseSink::new("http://127.0.0.1:8123", "logs", "otel_metric");
    assert!(plain
        .create_table_ddl()
        .contains("`attributes`             JSON,"));
}

#[test]
fn cluster_ddl_is_replicated_plus_distributed() {
    let sink = ClickhouseSink::new("http://ck-lb:8123", "logs", "otel_metric")
        .cluster("bj_ck")
        .extra_columns(vec![(
            "cluster".to_owned(),
            "LowCardinality(String)".to_owned(),
        )]);
    let ddl = sink.create_table_ddl();
    assert!(
        ddl.contains("`logs`.`otel_metric_local` ON CLUSTER `bj_ck`"),
        "{ddl}"
    );
    assert!(ddl.contains("ENGINE = ReplicatedMergeTree"), "{ddl}");
    assert!(
        ddl.contains("Distributed(`bj_ck`, `logs`, `otel_metric_local`, cityHash64(`service_name`, `metric_name`))"),
        "{ddl}"
    );
    assert_eq!(ddl.matches("CREATE TABLE").count(), 2, "{ddl}");
    assert_eq!(ddl.matches("ALTER TABLE").count(), 2, "{ddl}");
    assert_eq!(ddl.matches(";\n").count(), 3, "{ddl}");
    assert_eq!(
        ddl.matches("ADD INDEX IF NOT EXISTS `idx_metric_name`")
            .count(),
        1,
        "{ddl}"
    );
    assert_eq!(
        ddl.matches("ADD COLUMN IF NOT EXISTS `cluster`").count(),
        2,
        "{ddl}"
    );
    let local_alter = ddl.find("ALTER TABLE `logs`.`otel_metric_local`").unwrap();
    let dist_alter = ddl.find("ALTER TABLE `logs`.`otel_metric` ON").unwrap();
    assert!(
        local_alter < dist_alter,
        "先补本地表再补 Distributed 表:\n{ddl}"
    );
    assert!(
        ddl.contains("{shard}") && ddl.contains("{replica}"),
        "{ddl}"
    );
}

#[test]
fn the_whole_statement_for_one_node() {
    let sink = ClickhouseSink::new("http://127.0.0.1:8123", "logs", "otel_metric");
    let extra = [
        ("cluster".to_owned(), "LowCardinality(String)".to_owned()),
        ("value".to_owned(), "String".to_owned()),
        ("cluster".to_owned(), "Int64".to_owned()),
    ];
    let mut columns: Vec<(String, String)> = sink.base_columns();
    columns.push(extra[0].clone());
    let lines: Vec<String> = columns
        .iter()
        .map(|(name, ty)| format!("    {:<24} {ty}", format!("`{name}`")))
        .collect();
    let adds: Vec<String> = columns[1..]
        .iter()
        .map(|(name, ty)| format!("    ADD COLUMN IF NOT EXISTS `{name}` {ty}"))
        .collect();
    let expect = format!(
        "CREATE TABLE IF NOT EXISTS `logs`.`otel_metric`\n(\n{},\n    \
         INDEX `idx_metric_name` `metric_name` TYPE bloom_filter GRANULARITY 4,\n    \
         INDEX `idx_exemplar_trace_id` `exemplars.trace_id` TYPE bloom_filter GRANULARITY 4\n)\n\
         ENGINE = MergeTree\nPARTITION BY toDate(`timestamp`)\n\
         ORDER BY (`service_name`, `metric_name`, toDateTime(`timestamp`))\n\
         TTL toDateTime(`timestamp`) + INTERVAL 30 DAY;\n\n\
         ALTER TABLE `logs`.`otel_metric`\n{},\n    \
         ADD INDEX IF NOT EXISTS `idx_metric_name` `metric_name` TYPE bloom_filter GRANULARITY 4,\n    \
         ADD INDEX IF NOT EXISTS `idx_exemplar_trace_id` `exemplars.trace_id` TYPE bloom_filter GRANULARITY 4",
        lines.join(",\n"),
        adds.join(",\n"),
    );
    assert_eq!(sink.create_table_ddl_with(&extra), expect);
}

#[test]
fn the_cluster_statements_and_the_local_table() {
    let sink = ClickhouseSink::new("http://ck-lb:8123", "logs", "otel_metric")
        .cluster("bj_ck")
        .timezone(chrono_tz::Asia::Shanghai);
    assert_eq!(sink.local_table(), "otel_metric_local");
    let ddl = sink.create_table_ddl();
    assert!(ddl.contains(
        "ENGINE = ReplicatedMergeTree('/clickhouse/tables/{shard}/logs/otel_metric_local', '{replica}')\nPARTITION BY"
    ));
    assert!(ddl.contains(
        "CREATE TABLE IF NOT EXISTS `logs`.`otel_metric` ON CLUSTER `bj_ck`\nAS `logs`.`otel_metric_local`\nENGINE = Distributed("
    ));
    assert!(ddl.ends_with(
        ",\n    MODIFY COLUMN `start_timestamp` DateTime64(9, 'Asia/Shanghai'),\n    \
         MODIFY COLUMN `exemplars.timestamp` Array(DateTime64(9, 'Asia/Shanghai'))"
    ));
}

#[test]
fn literals_are_escaped() {
    assert_eq!(escape_literal("logs"), "logs");
    assert_eq!(escape_literal(r"a\b'c"), r"a\\b\'c");
    assert_eq!(escape_literal(r"\'"), r"\\\'");
    assert_eq!(escape_literal(""), "");
}

#[test]
fn json_types_with_blanks_and_odd_endings() {
    assert_eq!(ATTRIBUTES_TYPE, "JSON");
    assert!(is_json_type("JSON( max_dynamic_paths = 2048 )", "JSON"));
    assert!(is_json_type("Array( JSON )", "Array(JSON)"));
    assert!(!is_json_type("JSON(", "JSON"));
    assert!(!is_json_type("Array(", "Array(JSON)"));
    assert!(!is_json_type("Array()", "Array(JSON)"));
    assert!(!is_json_type("", "JSON"));
    assert!(!is_json_type("Array(JSON)", "JSON"));
}

#[test]
fn insert_formats_have_their_names() {
    assert_eq!(
        InsertFormat::JsonCompactEachRow.as_str(),
        "JSONCompactEachRow"
    );
    assert_eq!(InsertFormat::JsonEachRow.as_str(), "JSONEachRow");
    assert_eq!(InsertFormat::default(), InsertFormat::JsonCompactEachRow);
}

#[test]
fn empty_body_still_carries_content_length_and_is_not_gzipped() {
    let sink = ClickhouseSink::new("http://127.0.0.1:8123//", "logs", "otel_metric")
        .timeout(Duration::from_secs(5));
    let request = sink.execute("SELECT 1");
    assert_eq!(request.endpoint, "http://127.0.0.1:8123");
    assert_eq!(request.timeout, Duration::from_secs(5));
    assert_eq!(setting(&request, "query"), Some("SELECT 1"));
    assert_eq!(header(&request, "content-length"), Some("0"));
    assert_eq!(header(&request, "content-encoding"), None);
    assert!(request.body.is_empty());
}

#[test]
fn insert_body_is_gzipped_and_round_trips() {
    let sink = ClickhouseSink::new("http://127.0.0.1:8123", "logs", "otel_metric")
        .timeout(Duration::from_secs(5))
        .extra_columns(vec![(
            "cluster".to_owned(),
            "LowCardinality(String)".to_owned(),
        )]);

    let mut event = point();
    event.insert("cluster", Json::from_text("bj-prod"));
    let batch: Vec<MetricEvent> = (0..600).map(|_| event.clone()).collect();
    let request = write(&sink, &batch);

    assert_eq!(header(&request, "content-encoding"), Some("gzip"));
    assert_eq!(
        header(&request, "content-length"),
        Some(request.body.len().to_string().as_str())
    );
    assert_eq!(
        setting(&request, "date_time_input_format"),
        Some("best_effort")
    );
    assert_eq!(setting(&request, "input_format_null_as_default"), Some("1"));
    let sql = setting(&request, "query").unwrap();
    assert!(sql.contains("FORMAT JSONCompactEachRow"), "{sql}");
    assert!(sql.contains("`flags`, `cluster`)"), "{sql}");
    assert_eq!(setting(&request, "input_format_skip_unknown_fields"), None);

    let mut plain = String::new();
    GzDecoder::new(&request.body[..])
        .read_to_string(&mut plain)
        .expect("body 应当是合法的 gzip");
    assert!(plain.ends_with('\n'), "每行都要以换行结尾: {plain:?}");
    let rows = rows(&plain);
    assert_eq!(rows.len(), 600);
    for row in &rows {
        assert_eq!(row.len(), FIXED_COLUMNS.len() + 1, "{row:?}");
        assert_eq!(row[col("metric_name")], "压缩测试");
        assert_eq!(row[col("metric_type")], "Histogram");
        assert_eq!(row[col("count")], 3);
        assert_eq!(row[col("bucket_counts")], Value::from(vec![1, 2]));
        assert_eq!(row[FIXED_COLUMNS.len()], "bj-prod");
        assert_eq!(row[col("timestamp")], "2026-09-07 03:04:08.914293456+00:00");
        assert_eq!(
            row[col("exemplars.timestamp")],
            Value::from(vec!["2026-09-07 03:04:08.914293457+00:00"])
        );
    }
}

#[test]
fn json_each_row_is_still_available() {
    let sink = ClickhouseSink::new("http://127.0.0.1:8123", "logs", "otel_metric")
        .timeout(Duration::from_secs(5))
        .compress(false)
        .insert_format(InsertFormat::JsonEachRow);

    let request = write(&sink, &[point()]);
    assert!(setting(&request, "query")
        .unwrap()
        .contains("FORMAT JSONEachRow"));
    assert_eq!(
        setting(&request, "input_format_skip_unknown_fields"),
        Some("1")
    );
    let body = String::from_utf8_lossy(&request.body);
    assert!(body.contains("\"metric_name\":\"压缩测试\""), "{body}");
    assert!(
        body.contains("\"timestamp\":\"2026-09-07 03:04:08.914293456+00:00\""),
        "{body}"
    );
}

#[test]
fn non_finite_values_serialize_as_null() {
    let sink = ClickhouseSink::new("http://127.0.0.1:8123", "logs", "otel_metric")
        .timeout(Duration::from_secs(5))
        .compress(false);

    let mut event = point();
    event.metric_type = MetricType::Gauge;
    event.value = double(f64::NAN);
    let request = write(&sink, &[event]);
    let rows = rows(&String::from_utf8_lossy(&request.body));
    assert_eq!(rows.len(), 1);
    assert_eq!(rows[0][col("value")], Value::Null, "{:?}", rows[0]);
}

#[test]
fn compression_can_be_turned_off() {
    let sink = ClickhouseSink::new("http://127.0.0.1:8123", "logs", "otel_metric")
        .timeout(Duration::from_secs(5))
        .compress(false);

    let request = write(&sink, &[point()]);
    assert_eq!(header(&request, "content-encoding"), None);
    let rows = rows(&String::from_utf8_lossy(&request.body));
    assert_eq!(rows[0][col("metric_name")], "压缩测试");
}

#[test]
fn timezone_puts_wall_clock_and_offset_on_timestamps() {
    let sink = ClickhouseSink::new("http://127.0.0.1:8123", "logs", "otel_metric")
        .timeout(Duration::from_secs(5))
        .compress(false)
        .timezone(chrono_tz::Asia::Shanghai);

    let request = write(&sink, &[point()]);
    let rows = rows(&String::from_utf8_lossy(&request.body));
    let row = &rows[0];
    assert_eq!(row[col("timestamp")], "2026-09-07 11:04:08.914293456+08:00");
    assert_eq!(
        row[col("start_timestamp")],
        "2026-09-07 11:03:08.914293456+08:00"
    );
    assert_eq!(
        row[col("exemplars.timestamp")],
        Value::from(vec!["2026-09-07 11:04:08.914293457+08:00"])
    );
}

#[test]
fn who_asks_and_how_inserts_are_gathered() {
    let sink = ClickhouseSink::new("http://127.0.0.1:8123", "logs", "otel_metric");
    let request = sink.execute("SELECT 1");
    assert_eq!(request.timeout, Duration::from_secs(30));
    assert_eq!(header(&request, "X-ClickHouse-User"), None);
    assert_eq!(setting(&request, "async_insert"), None);

    let sink = sink.auth("default", "SECRET-REDACTED").async_insert(true);
    let request = sink.insert_request(vec![1, 2, 3], true);
    assert_eq!(header(&request, "X-ClickHouse-User"), Some("default"));
    assert_eq!(header(&request, "X-ClickHouse-Key"), Some("SECRET-REDACTED"));
    assert_eq!(header(&request, "content-length"), Some("3"));
    assert_eq!(setting(&request, "async_insert"), Some("1"));
    assert_eq!(setting(&request, "wait_for_async_insert"), Some("1"));
    assert_eq!(request.body, [1, 2, 3]);
}

#[test]
fn answers_of_success_and_of_failure() {
    assert_eq!(reply(200, "200 OK", "1\n".to_owned()).unwrap(), "1\n");
    assert_eq!(reply(299, "299", String::new()).unwrap(), "");
    match reply(
        404,
        "404 Not Found",
        "  Code: 60. Table does not exist\n".to_owned(),
    ) {
        Err(PipeError::Sink(what)) => assert_eq!(
            what,
            "ClickHouse 返回 404 Not Found: Code: 60. Table does not exist"
        ),
        other => panic!("{other:?}"),
    }
    assert!(reply(199, "199", String::new()).is_err());
    assert!(reply(300, "300 Multiple Choices", String::new()).is_err());
}

#[test]
fn chunks_are_full_every_so_many_rows() {
    for compress in [false, true] {
        let mut insert = Insert::new(compress);
        let mut expect = Vec::new();
        for i in 1..=(2 * ROWS_PER_CHUNK + 3) {
            let row = format!("[{i}]").into_bytes();
            assert_eq!(insert.push_row(&row).unwrap(), i % ROWS_PER_CHUNK == 0);
            expect.extend_from_slice(&row);
            expect.push(b'\n');
        }
        let (body, compressed) = insert.finish().unwrap();
        assert_eq!(compressed, compress);
        let mut plain = Vec::new();
        if compressed {
            assert!(body.len() < expect.len());
            GzDecoder::new(&body[..]).read_to_end(&mut plain).unwrap();
        } else {
            plain = body;
        }
        assert_eq!(plain, expect);
    }
    let (body, compressed) = Insert::new(true).finish().unwrap();
    assert!(compressed);
    let mut plain = Vec::new();
    GzDecoder::new(&body[..]).read_to_end(&mut plain).unwrap();
    assert!(plain.is_empty());
}

const COLUMNS: [(&str, &str); 35] = [
    ("timestamp", "DateTime64(9)"),
    ("start_timestamp", "DateTime64(9)"),
    ("metric_name", "LowCardinality(String)"),
    ("metric_type", "LowCardinality(String)"),
    ("metric_unit", "LowCardinality(String)"),
    ("metric_description", "String"),
    ("service_name", "LowCardinality(String)"),
    ("scope_name", "LowCardinality(String)"),
    ("scope_version", "LowCardinality(String)"),
    ("resource_attributes", "JSON"),
    ("attributes", "JSON(max_dynamic_paths=2048)"),
    ("value", "Float64"),
    ("temporality", "LowCardinality(String)"),
    ("is_monotonic", "UInt8"),
    ("count", "UInt64"),
    ("sum", "Float64"),
    ("min", "Float64"),
    ("max", "Float64"),
    ("bucket_counts", "Array(UInt64)"),
    ("explicit_bounds", "Array(Float64)"),
    ("scale", "Int32"),
    ("zero_count", "UInt64"),
    ("zero_threshold", "Float64"),
    ("positive_offset", "Int32"),
    ("positive_bucket_counts", "Array(UInt64)"),
    ("negative_offset", "Int32"),
    ("negative_bucket_counts", "Array(UInt64)"),
    ("quantiles.quantile", "Array(Float64)"),
    ("quantiles.value", "Array(Float64)"),
    ("exemplars.timestamp", "Array(DateTime64(9))"),
    ("exemplars.value", "Array(Float64)"),
    ("exemplars.trace_id", "Array(String)"),
    ("exemplars.span_id", "Array(String)"),
    ("exemplars.attributes", "Array(JSON)"),
    ("flags", "UInt32"),
];

fn columns_tsv(skip: &[&str], retype: &[(&str, &str)]) -> String {
    let mut out = String::new();
    for (name, ty) in COLUMNS {
        if skip.contains(&name) {
            continue;
        }
        let ty = retype
            .iter()
            .find(|(target, _)| *target == name)
            .map_or(ty, |(_, ty)| *ty);
        out.push_str(&format!("{name}\t{ty}\n"));
    }
    out
}

/// Runs the check against a store that answers with these texts, and hands back
/// what it came to and what was asked.
fn healthcheck(
    sink: &ClickhouseSink,
    answers: &[&str],
) -> (Result<Vec<HintWarning>, PipeError>, Vec<String>) {
    let mut queries = Vec::new();
    let mut step = ClickhouseSink::health_start();
    for answer in answers {
        queries.push(sink.health_query(step));
        match sink.health_next(step, Ok((*answer).to_owned())) {
            Health::Ask(next) => step = next,
            Health::Failed(err) => return (Err(err), queries),
            Health::Healthy(warnings) => return (Ok(warnings), queries),
        }
    }
    panic!("the check asks for more: {step:?}");
}

fn message(result: Result<Vec<HintWarning>, PipeError>) -> String {
    match result {
        Err(PipeError::Sink(what)) => what,
        other => panic!("{other:?}"),
    }
}

#[test]
fn healthcheck_reports_missing_columns() {
    let columns = format!(
        "{}cluster\tLowCardinality(String)\n",
        columns_tsv(&["exemplars.timestamp"], &[])
    );
    let sink = ClickhouseSink::new("http://127.0.0.1:8123", "logs", "otel_metric")
        .timeout(Duration::from_secs(5))
        .extra_columns(vec![
            ("cluster".to_owned(), "LowCardinality(String)".to_owned()),
            ("env".to_owned(), "LowCardinality(String)".to_owned()),
        ]);

    let (result, queries) = healthcheck(&sink, &["1\n", "1\n", &columns]);
    let msg = message(result);
    assert!(msg.contains("缺列 exemplars.timestamp, env"), "{msg}");
    assert!(msg.contains("--ddl"), "要告诉人怎么补: {msg}");
    assert_eq!(
        msg,
        "表 logs.otel_metric 缺列 exemplars.timestamp, env：表结构没跟上配置，这些字段插入时会被静默丢掉。\
         重跑 `metricpipe --ddl` 输出的语句（ddl Job）即可补齐"
    );

    assert_eq!(queries.len(), 3, "{queries:?}");
    assert_eq!(queries[0], "SELECT 1");
    assert_eq!(queries[1], "EXISTS TABLE `logs`.`otel_metric`");
    assert!(
        queries[2].contains("system.columns")
            && queries[2].contains("database = 'logs'")
            && queries[2].contains("table = 'otel_metric'"),
        "{}",
        queries[2]
    );
}

#[test]
fn healthcheck_passes_when_columns_present() {
    let columns = format!(
        "{}env\tLowCardinality(String)\nextra_col\tString\n",
        columns_tsv(&[], &[])
    );
    let sink = ClickhouseSink::new("http://127.0.0.1:8123", "logs", "otel_metric")
        .timeout(Duration::from_secs(5))
        .extra_columns(vec![(
            "env".to_owned(),
            "LowCardinality(String)".to_owned(),
        )]);

    let (result, queries) = healthcheck(&sink, &["1\n", "1\n", &columns]);
    assert_eq!(result.expect("列齐了不该报错"), []);
    assert_eq!(queries.len(), 3);
}

#[test]
fn healthcheck_rejects_map_typed_attribute_columns() {
    let columns = columns_tsv(
        &[],
        &[
            ("attributes", "Map(LowCardinality(String), String)"),
            (
                "exemplars.attributes",
                "Array(Map(LowCardinality(String), String))",
            ),
        ],
    );
    let sink = ClickhouseSink::new("http://127.0.0.1:8123", "logs", "otel_metric")
        .timeout(Duration::from_secs(5));

    let (result, _) = healthcheck(&sink, &["1\n", "1\n", &columns]);
    let msg = message(result);
    assert!(
        msg.contains("attributes 是 Map(LowCardinality(String), String)"),
        "{msg}"
    );
    assert!(msg.contains("exemplars.attributes 是 Array(Map"), "{msg}");
    assert!(
        !msg.contains("resource_attributes"),
        "JSON 的列别点名: {msg}"
    );
    assert!(
        msg.contains("DROP") && msg.contains("--ddl"),
        "要告诉人怎么迁: {msg}"
    );
}

#[test]
fn healthcheck_accepts_table_without_the_configured_hints() {
    let sink = ClickhouseSink::new("http://127.0.0.1:8123", "logs", "otel_metric")
        .timeout(Duration::from_secs(5))
        .attribute_types(vec![("http.route".to_owned(), "String".to_owned())]);

    let (result, queries) = healthcheck(&sink, &["1\n", "1\n", &columns_tsv(&[], &[])]);
    let warnings = result.expect("提示没生效是 warn，不是错误");
    assert_eq!(queries.len(), 3);
    let warning = |column: &str, actual: &str| HintWarning {
        column: column.to_owned(),
        actual: actual.to_owned(),
        missing: "http.route".to_owned(),
    };
    assert_eq!(
        warnings,
        [
            warning("resource_attributes", "JSON"),
            warning("attributes", "JSON(max_dynamic_paths=2048)"),
        ]
    );
}

#[test]
fn healthcheck_is_quiet_when_hints_are_applied() {
    let columns = columns_tsv(
        &[],
        &[
            (
                "attributes",
                "JSON(http.route String, SKIP REGEXP '^debug\\\\..*')",
            ),
            (
                "resource_attributes",
                "JSON(http.route String, SKIP REGEXP '^debug\\\\..*')",
            ),
        ],
    );
    let sink = ClickhouseSink::new("http://127.0.0.1:8123", "logs", "otel_metric")
        .timeout(Duration::from_secs(5))
        .attribute_types(vec![("http.route".to_owned(), "String".to_owned())])
        .attribute_skip_regexp(vec![r"^debug\..*".to_owned()]);

    let (result, _) = healthcheck(&sink, &["1\n", "1\n", &columns]);
    assert_eq!(result.expect("带提示的列是合法的 JSON 类型"), []);
}

#[test]
fn healthcheck_reports_missing_table() {
    let sink = ClickhouseSink::new("http://127.0.0.1:8123", "logs", "otel_metric")
        .timeout(Duration::from_secs(5));
    let (result, queries) = healthcheck(&sink, &["1\n", "0\n"]);
    let msg = message(result);
    assert!(msg.contains("不存在"), "{msg}");
    assert_eq!(queries.len(), 2);
}

#[test]
fn healthcheck_stops_at_the_first_error() {
    let sink = ClickhouseSink::new("http://127.0.0.1:8123", "logs", "otel_metric");
    for step in [HealthStep::Ping, HealthStep::Exists, HealthStep::Columns] {
        match sink.health_next(step, Err(PipeError::Other("下游已关闭".to_owned()))) {
            Health::Failed(PipeError::Other(what)) => assert_eq!(what, "下游已关闭"),
            other => panic!("{other:?}"),
        }
    }
}

#[test]
fn healthcheck_passes_on_the_table_that_the_statements_make() {
    let sink = ClickhouseSink::new("http://127.0.0.1:8123", "logs", "otel_metric")
        .timezone(chrono_tz::Asia::Shanghai)
        .attribute_types(vec![("http.route".to_owned(), "String".to_owned())])
        .attribute_skip(vec!["debug.payload".to_owned()])
        .attribute_skip_regexp(vec![r"^it's\..*".to_owned()])
        .extra_columns(vec![("cluster".to_owned(), "String".to_owned())]);
    let mut table = String::new();
    for (name, ty) in sink.base_columns() {
        table.push_str(&format!("{name}\t{ty}\r\n"));
    }
    table.push_str("\n  \ncluster\tString");
    let (result, _) = healthcheck(&sink, &["1", " 1 ", &table]);
    assert_eq!(result.unwrap(), []);
}

#[test]
fn the_question_for_columns_escapes_its_literals() {
    let sink = ClickhouseSink::new("http://127.0.0.1:8123", "lo'gs", r"m\t");
    assert_eq!(
        sink.health_query(HealthStep::Columns),
        r"SELECT name, type FROM system.columns WHERE database = 'lo\'gs' AND table = 'm\\t' FORMAT TSV"
    );
}

#[test]
fn columns_without_a_type_and_named_twice() {
    let sink = ClickhouseSink::new("http://127.0.0.1:8123", "logs", "otel_metric");
    // No type is no wrong type.
    let bare: String = COLUMNS.iter().map(|(name, _)| format!("{name}\n")).collect();
    let (result, _) = healthcheck(&sink, &["1", "1", &bare]);
    assert_eq!(result.unwrap(), []);
    // The last type of two counts.
    let twice = format!("{}attributes\tString\n", columns_tsv(&[], &[]));
    let (result, _) = healthcheck(&sink, &["1", "1", &twice]);
    assert!(message(result).contains("（attributes 是 String）"));
    let twice = format!("attributes\tString\n{}", columns_tsv(&[], &[]));
    let (result, _) = healthcheck(&sink, &["1", "1", &twice]);
    assert_eq!(result.unwrap(), []);
}

#[test]
fn hints_are_the_paths_and_then_the_patterns() {
    let sink = ClickhouseSink::new("http://127.0.0.1:8123", "logs", "otel_metric");
    assert!(sink.attribute_hints().is_empty());
    let sink = sink
        .attribute_skip_regexp(vec![r"^debug\..*".to_owned()])
        .attribute_skip(vec!["debug.payload".to_owned()])
        .attribute_types(vec![
            ("http.route".to_owned(), "String".to_owned()),
            ("rpc.code".to_owned(), "Int64".to_owned()),
        ]);
    assert_eq!(
        sink.attribute_hints(),
        ["http.route", "rpc.code", "debug.payload", r"^debug\..*"]
    );
    // What is missing is named in that order.
    let (result, _) = healthcheck(&sink, &["1", "1", &columns_tsv(&[], &[])]);
    let warnings = result.unwrap();
    assert_eq!(warnings.len(), 2);
    assert_eq!(
        warnings[0].missing,
        r"http.route、rpc.code、debug.payload、^debug\..*"
    );
}
