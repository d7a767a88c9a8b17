use std::sync::Arc;

use chrono::{DateTime, TimeZone, Utc};
use chrono_tz::Tz;
use metricpipe::double::Double;
use metricpipe::event::{format_timestamp, Attributes, CompactRow, WithZone, FIXED_COLUMNS};
use metricpipe::json::{Json, JsonMap, Number};
use metricpipe::{Exemplar, MetricEvent, MetricType, Quantile, Temporality};
use serde_json::Value;

/// 2026-09-07 03:04:08.914293456 UTC
fn nanos() -> u64 {
    let secs = Utc
        .with_ymd_and_hms(2026, 9, 7, 3, 4, 8)
        .unwrap()
        .timestamp() as u64;
    secs * 1_000_000_000 + 914_293_456
}

fn double(value: f64) -> Double {
    Double {
        bits: value.to_bits(),
    }
}

fn map(entries: &[(&str, Json)]) -> JsonMap {
    let mut map = JsonMap::new();
    for (key, value) in entries {
        map.insert((*key).to_owned(), value.clone());
    }
    map
}

fn value_of(json: &Json) -> Value {
    match json {
        Json::Null => Value::Null,
        Json::Bool(b) => Value::from(*b),
        Json::Number(Number::PosInt(n)) => Value::from(*n),
        Json::Number(Number::NegInt(n)) => Value::from(*n),
        Json::Number(Number::Float(d)) => Value::from(f64::from_bits(d.bits)),
        Json::String(s) => Value::from(s.as_str()),
        Json::Array(items) => Value::Array(items.iter().map(value_of).collect()),
        Json::Object(map) => Value::Object(
            (0..map.len())
                .map(|i| {
                    let (key, value) = map.entry(i);
                    (key.clone(), value_of(value))
                })
                .collect(),
        ),
    }
}

fn object_of(columns: &[(String, Json)]) -> Value {
    Value::Object(
        columns
            .iter()
            .map(|(name, value)| (name.clone(), value_of(value)))
            .collect(),
    )
}

fn histogram() -> MetricEvent {
    MetricEvent {
        timestamp: nanos(),
        start_timestamp: nanos() - 60_000_000_000,
        metric_name: Arc::from("http.server.request.duration"),
        metric_type: MetricType::Histogram,
        metric_unit: Arc::from("ms"),
        service_name: Arc::from("order-service"),
        temporality: Temporality::Cumulative,
        count: 7,
        sum: double(123.5),
        min: double(1.0),
        max: double(90.0),
        bucket_counts: vec![3, 3, 1],
        explicit_bounds: vec![double(5.0), double(50.0)],
        attributes: map(&[("http.route", Json::from_text("/orders/{id}"))]),
        exemplars: vec![Exemplar {
            timestamp: nanos() + 1_000,
            value: double(90.0),
            trace_id: "e89a476882236ce0f1186d1522c8f59f".into(),
            span_id: "e8b0e73e2132f21c".into(),
            attributes: Attributes::new(),
        }],
        ..Default::default()
    }
}

#[test]
fn formats_wall_clock_with_offset() {
    assert_eq!(
        format_timestamp(nanos(), Tz::UTC).as_str(),
        "2026-09-07 03:04:08.914293456+00:00"
    );
    assert_eq!(
        format_timestamp(nanos(), chrono_tz::Asia::Shanghai).as_str(),
        "2026-09-07 11:04:08.914293456+08:00"
    );
    assert_eq!(
        format_timestamp(nanos(), chrono_tz::America::New_York).as_str(),
        "2026-09-06 23:04:08.914293456-04:00"
    );
    let expect = DateTime::<Utc>::from_timestamp(nanos() as i64 / 1_000_000_000, 914_293_456)
        .unwrap()
        .with_timezone(&chrono_tz::Asia::Shanghai)
        .format("%Y-%m-%d %H:%M:%S%.9f%:z")
        .to_string();
    assert_eq!(
        format_timestamp(nanos(), chrono_tz::Asia::Shanghai).as_str(),
        expect
    );
    assert_eq!(
        format_timestamp(0, Tz::UTC).as_str(),
        "1970-01-01 00:00:00.000000000+00:00"
    );
}

#[test]
fn serializes_flat_with_nested_arrays() {
    let mut event = histogram();
    event.shared = Some(Arc::new(map(&[("cluster", Json::from_text("bj-prod"))])));
    event.insert("env", Json::from_text("prod"));

    let json = object_of(&event.columns());
    assert_eq!(json["timestamp"], "2026-09-07 03:04:08.914293456+00:00");
    assert_eq!(json["metric_name"], "http.server.request.duration");
    assert_eq!(json["metric_type"], "Histogram");
    assert_eq!(json["temporality"], "Cumulative");
    assert_eq!(json["count"], 7);
    assert_eq!(json["bucket_counts"], Value::from(vec![3, 3, 1]));
    assert_eq!(json["explicit_bounds"], Value::from(vec![5.0, 50.0]));
    assert_eq!(json["attributes"]["http.route"], "/orders/{id}");
    assert_eq!(
        json["exemplars.trace_id"],
        Value::from(vec!["e89a476882236ce0f1186d1522c8f59f"])
    );
    assert_eq!(
        json["exemplars.timestamp"][0],
        "2026-09-07 03:04:08.914294456+00:00"
    );
    assert_eq!(json["quantiles.value"], Value::Array(Vec::new()));
    assert_eq!(json["value"], 0.0);
    assert_eq!(json["is_monotonic"], 0);
    assert_eq!(json["cluster"], "bj-prod");
    assert_eq!(json["env"], "prod");
    assert_eq!(event.get("cluster"), Some(&Json::from_text("bj-prod")));
    assert_eq!(
        event.attribute("http.route"),
        Some(&Json::from_text("/orders/{id}"))
    );

    let zoned = WithZone {
        event: &event,
        tz: chrono_tz::Asia::Shanghai,
    };
    let json = object_of(&zoned.columns());
    assert_eq!(json["timestamp"], "2026-09-07 11:04:08.914293456+08:00");
    assert_eq!(
        json["exemplars.timestamp"][0],
        "2026-09-07 11:04:08.914294456+08:00"
    );
    assert!(event.estimated_size() > MetricEvent::default().estimated_size());
}

#[test]
fn fixed_columns_match_the_declared_order() {
    let names: Vec<String> = histogram()
        .fixed_columns(Tz::UTC)
        .into_iter()
        .map(|(name, _)| name)
        .collect();
    assert_eq!(names, FIXED_COLUMNS);
}

#[test]
fn compact_row_lines_up_with_the_map_form() {
    let mut event = histogram();
    event.shared = Some(Arc::new(map(&[("cluster", Json::from_text("bj-prod"))])));
    event.insert("env", Json::from_text("prod"));
    let tz = chrono_tz::Asia::Shanghai;

    let map = object_of(&WithZone { event: &event, tz }.columns());
    let extra = ["cluster".to_owned(), "env".to_owned(), "absent".to_owned()];
    let compact = CompactRow {
        event: &event,
        tz,
        extra: &extra,
    };
    let row: Vec<Value> = compact.values().iter().map(value_of).collect();

    assert_eq!(row.len(), FIXED_COLUMNS.len() + extra.len());
    for (i, name) in FIXED_COLUMNS.iter().enumerate() {
        assert_eq!(&row[i], &map[*name], "第 {i} 列 {name} 对不上");
    }
    assert_eq!(row[FIXED_COLUMNS.len()], "bj-prod");
    assert_eq!(row[FIXED_COLUMNS.len() + 1], "prod");
    assert_eq!(row[FIXED_COLUMNS.len() + 2], Value::Null);
    assert_eq!(row[0], "2026-09-07 11:04:08.914293456+08:00");
}

/// The line of an event, with the texts of its numbers and attributes.
fn line(event: &MetricEvent) -> String {
    let number = event.line_number();
    let values = (0..event.attributes.len())
        .map(|i| value_of(event.attributes.entry(i).1).to_string())
        .collect();
    event.to_text_line(&format!("{}", f64::from_bits(number.bits)), &values)
}

#[test]
fn text_line_shows_value_or_summary() {
    let gauge = MetricEvent {
        timestamp: nanos(),
        metric_name: Arc::from("system.memory.usage"),
        metric_type: MetricType::Gauge,
        service_name: Arc::from("node"),
        value: double(42.5),
        attributes: map(&[("state", Json::from_text("used"))]),
        ..Default::default()
    };
    assert_eq!(
        line(&gauge),
        "2026-09-07 03:04:08.914293456+00:00 node system.memory.usage Gauge 42.5 state=\"used\""
    );
    assert!(line(&histogram()).contains("count=7 sum=123.5"));
}

#[test]
fn text_line_without_attributes_has_no_blank_at_the_end() {
    let event = MetricEvent {
        metric_name: Arc::from("up"),
        service_name: Arc::from("node"),
        value: double(1.0),
        ..Default::default()
    };
    assert_eq!(
        line(&event),
        "1970-01-01 00:00:00.000000000+00:00 node up Gauge 1"
    );
}

#[test]
fn the_latest_moment_and_odd_offsets() {
    assert_eq!(
        format_timestamp(u64::MAX, Tz::UTC).as_str(),
        "2554-07-21 23:34:33.709551615+00:00"
    );
    assert_eq!(
        format_timestamp(0, chrono_tz::Asia::Kolkata).as_str(),
        "1970-01-01 05:30:00.000000000+05:30"
    );
    assert_eq!(
        format_timestamp(0, chrono_tz::America::New_York).as_str(),
        "1969-12-31 19:00:00.000000000-05:00"
    );
    // Monrovia was 44 minutes and 30 seconds behind; the seconds are not written.
    assert_eq!(
        format_timestamp(0, chrono_tz::Africa::Monrovia).as_str(),
        "1969-12-31 23:15:30.000000000-00:44"
    );
    assert_eq!(
        format_timestamp(1_709_164_800_000_000_000, Tz::UTC).as_str(),
        "2024-02-29 00:00:00.000000000+00:00"
    );
}

#[test]
fn every_stamp_is_thirty_five_characters_and_moments_differ() {
    let mut seen = Vec::new();
    for nanos in [0, 1, 999_999_999, 1_000_000_000, 86_400_000_000_000, nanos(), u64::MAX] {
        for tz in [Tz::UTC, chrono_tz::Asia::Shanghai] {
            let text = format_timestamp(nanos, tz).as_str().to_owned();
            assert_eq!(text.len(), 35);
            assert!(!seen.contains(&text));
            seen.push(text);
        }
    }
}

#[test]
fn kinds_and_temporalities_have_their_names() {
    assert_eq!(MetricType::Gauge.as_str(), "Gauge");
    assert_eq!(MetricType::Sum.as_str(), "Sum");
    assert_eq!(MetricType::Histogram.as_str(), "Histogram");
    assert_eq!(
        MetricType::ExponentialHistogram.as_str(),
        "ExponentialHistogram"
    );
    assert_eq!(MetricType::Summary.as_str(), "Summary");
    assert!(MetricType::Gauge.is_scalar() && MetricType::Sum.is_scalar());
    assert!(!MetricType::Histogram.is_scalar());
    assert!(!MetricType::ExponentialHistogram.is_scalar());
    assert!(!MetricType::Summary.is_scalar());
    assert_eq!(MetricType::default(), MetricType::Gauge);

    assert_eq!(Temporality::from_otlp(0), Temporality::Unspecified);
    assert_eq!(Temporality::from_otlp(1), Temporality::Delta);
    assert_eq!(Temporality::from_otlp(2), Temporality::Cumulative);
    assert_eq!(Temporality::from_otlp(-1), Temporality::Unspecified);
    assert_eq!(Temporality::Unspecified.as_str(), "Unspecified");
    assert_eq!(Temporality::Delta.as_str(), "Delta");
    assert_eq!(Temporality::Cumulative.as_str(), "Cumulative");
    assert_eq!(Temporality::default(), Temporality::Unspecified);
}

#[test]
fn size_of_a_blank_event_and_of_one_with_something_of_each() {
    // Two empty attribute maps of two bytes each, and a hundred.
    assert_eq!(MetricEvent::default().estimated_size(), 104);

    let event = MetricEvent {
        metric_name: Arc::from("ab"),
        metric_unit: Arc::from("s"),
        service_name: Arc::from("压缩"),
        attributes: map(&[("k", Json::from_text("vv"))]),
        bucket_counts: vec![1, 2],
        quantiles: vec![Quantile {
            quantile: double(0.5),
            value: double(1.0),
        }],
        exemplars: vec![Exemplar {
            timestamp: 0,
            value: double(0.0),
            trace_id: "t".into(),
            span_id: "s".into(),
            attributes: Attributes::new(),
        }],
        fields: map(&[
            ("n", Json::Null),
            ("b", Json::Bool(true)),
            ("i", Json::from_i64(-1)),
            ("a", Json::Array(vec![Json::Null, Json::Bool(false)])),
            ("o", Json::Object(map(&[("x", Json::Null)]))),
        ]),
        shared: Some(Arc::new(map(&[("c", Json::from_text(""))]))),
        ..Default::default()
    };
    let names = 2 + 1 + 6;
    let attributes = 2 + (1 + 4 + 4 + 2);
    let arrays = 20 * (2 + 2);
    let exemplars = 100 + 1 + 1 + 2;
    let fields = (1 + 4 + 4) + (1 + 5 + 4) + (1 + 8 + 4) + (1 + 13 + 4) + (1 + 11 + 4);
    let shared = 1 + 2 + 4;
    assert_eq!(
        event.estimated_size(),
        names + attributes + arrays + exemplars + fields + shared + 100
    );
}

#[test]
fn own_fields_come_before_shared_ones() {
    let mut event = MetricEvent {
        shared: Some(Arc::new(map(&[
            ("cluster", Json::from_text("shared")),
            ("env", Json::from_text("shared")),
        ]))),
        ..Default::default()
    };
    assert_eq!(event.insert("env", Json::from_text("first")), None);
    assert_eq!(
        event.insert("env", Json::from_text("own")),
        Some(Json::from_text("first"))
    );
    let event = event.with_field("zone", Json::Bool(true));
    assert_eq!(event.get("env"), Some(&Json::from_text("own")));
    assert_eq!(event.get("cluster"), Some(&Json::from_text("shared")));
    assert_eq!(event.get("zone"), Some(&Json::Bool(true)));
    assert_eq!(event.get("none"), None);

    let columns = event.columns();
    let further: Vec<(&str, &Json)> = columns[FIXED_COLUMNS.len()..]
        .iter()
        .map(|(name, value)| (name.as_str(), value))
        .collect();
    assert_eq!(
        further,
        [
            ("cluster", &Json::from_text("shared")),
            ("env", &Json::from_text("own")),
            ("zone", &Json::Bool(true)),
        ]
    );
}

#[test]
fn attributes_of_the_point_come_before_those_of_the_resource() {
    let event = MetricEvent {
        attributes: map(&[("a", Json::from_i64(1))]),
        resource_attributes: Arc::new(map(&[("a", Json::from_i64(2)), ("b", Json::from_i64(3))])),
        ..Default::default()
    };
    assert_eq!(event.attribute("a"), Some(&Json::from_i64(1)));
    assert_eq!(event.attribute("b"), Some(&Json::from_i64(3)));
    assert_eq!(event.attribute("c"), None);
}

#[test]
fn whole_numbers_become_the_nearest_double() {
    for n in [
        0,
        1,
        -1,
        12,
        123_456,
        1 << 52,
        (1 << 53) - 1,
        1 << 53,
        (1 << 53) + 1,
        (1 << 53) + 2,
        (1 << 53) + 3,
        -(1 << 53) - 1,
        (1 << 54) + 2,
        (1 << 54) + 6,
        i64::MAX,
        i64::MAX - 511,
        i64::MAX - 512,
        i64::MIN,
        i64::MIN + 1,
        1_789_000_000_000_000_001,
    ] {
        assert_eq!(Double::from_i64(n).bits, (n as f64).to_bits(), "{n}");
    }
    assert_eq!(Double::zero().bits, 0.0f64.to_bits());
}

#[test]
fn what_is_not_finite_is_null() {
    for value in [f64::NAN, f64::INFINITY, f64::NEG_INFINITY, -f64::NAN] {
        assert!(!double(value).is_finite());
        assert_eq!(Json::from_double(double(value)), Json::Null);
    }
    for value in [0.0, -0.0, 1.5, f64::MAX, f64::MIN_POSITIVE, -1e300] {
        assert!(double(value).is_finite());
        assert_eq!(
            Json::from_double(double(value)),
            Json::Number(Number::Float(double(value)))
        );
    }
}

#[test]
fn clones_say_the_same() {
    let mut event = histogram();
    event.shared = Some(Arc::new(map(&[("cluster", Json::from_text("bj-prod"))])));
    event.insert("nested", Json::Array(vec![Json::Object(map(&[("k", Json::Null)]))]));
    let copy = event.clone();
    assert_eq!(copy.columns(), event.columns());
    assert!(Arc::ptr_eq(&copy.metric_name, &event.metric_name));
}

#[test]
fn objects_keep_their_keys_in_order_and_once() {
    let mut map = JsonMap::new();
    assert_eq!(map.insert("b".to_owned(), Json::from_i64(1)), None);
    assert_eq!(map.insert("a".to_owned(), Json::from_i64(2)), None);
    assert_eq!(map.insert("压".to_owned(), Json::from_i64(3)), None);
    assert_eq!(map.insert("ab".to_owned(), Json::from_i64(4)), None);
    assert_eq!(
        map.insert("b".to_owned(), Json::from_i64(5)),
        Some(Json::from_i64(1))
    );
    let keys: Vec<&str> = (0..map.len()).map(|i| map.entry(i).0.as_str()).collect();
    assert_eq!(keys, ["a", "ab", "b", "压"]);
    assert_eq!(map.get("b"), Some(&Json::from_i64(5)));
    assert!(map.contains_key("ab") && !map.contains_key("c"));
    assert_eq!(map.get("c"), None);
    assert_eq!(map.len(), 4);
}

#[test]
fn nested_columns_have_one_length() {
    let mut event = histogram();
    event.exemplars.push(event.exemplars[0].clone());
    event.quantiles = vec![
        Quantile {
            quantile: double(0.5),
            value: double(1.0),
        };
        3
    ];
    for (name, value) in event.columns() {
        let expect = if name.starts_with("quantiles.") {
            3
        } else if name.starts_with("exemplars.") {
            2
        } else {
            continue;
        };
        assert!(matches!(value, Json::Array(items) if items.len() == expect));
    }
}

#[test]
fn doubles_are_equal_as_numbers_are() {
    assert_eq!(double(0.0), double(-0.0));
    assert_ne!(double(f64::NAN), double(f64::NAN));
    assert_eq!(double(f64::INFINITY), double(f64::INFINITY));
    assert_ne!(double(f64::INFINITY), double(f64::NEG_INFINITY));
    for a in [0.0, -0.0, 1.5, -1.5, f64::NAN, f64::INFINITY, f64::MIN_POSITIVE] {
        for b in [0.0, -0.0, 1.5, -1.5, f64::NAN, f64::INFINITY, f64::MIN_POSITIVE] {
            assert_eq!(double(a) == double(b), a == b, "{a} {b}");
        }
        assert_eq!(double(a).is_nan(), a.is_nan());
        assert_eq!(double(a).is_zero(), a == 0.0);
    }
    let quantile = |value: f64| Quantile {
        quantile: double(0.5),
        value: double(value),
    };
    assert_eq!(quantile(0.0), quantile(-0.0));
    assert_ne!(quantile(f64::NAN), quantile(f64::NAN));
    let exemplar = |value: f64| Exemplar {
        value: double(value),
        ..Default::default()
    };
    assert_eq!(exemplar(0.0), exemplar(-0.0));
    assert_ne!(exemplar(f64::NAN), exemplar(f64::NAN));
}

#[test]
fn quantiles_and_exemplars_have_defaults() {
    let quantile = Quantile::default();
    assert_eq!((quantile.quantile.bits, quantile.value.bits), (0, 0));
    let exemplar = Exemplar::default();
    assert_eq!((exemplar.timestamp, exemplar.value.bits), (0, 0));
    assert!(exemplar.trace_id.is_empty() && exemplar.span_id.is_empty());
    assert_eq!(exemplar.attributes.len(), 0);
}

#[test]
fn texts_in_utc_are_ordered_as_their_moments() {
    let moments = [
        0,
        1,
        999_999_999,
        1_000_000_000,
        59_999_999_999,
        60_000_000_000,
        86_399_999_999_999,
        86_400_000_000_000,
        nanos(),
        nanos() + 1,
        u64::MAX - 1,
        u64::MAX,
    ];
    for pair in moments.windows(2) {
        let earlier = format_timestamp(pair[0], Tz::UTC);
        let later = format_timestamp(pair[1], Tz::UTC);
        assert!(earlier.as_str() < later.as_str());
    }
}

#[test]
fn texts_name_their_moments_whatever_the_zone() {
    for moment in [0, 1, nanos(), 1_709_164_800_000_000_000] {
        for tz in [
            Tz::UTC,
            chrono_tz::Asia::Shanghai,
            chrono_tz::Asia::Kolkata,
            chrono_tz::America::New_York,
        ] {
            let text = format_timestamp(moment, tz);
            let read = DateTime::parse_from_str(text.as_str(), "%Y-%m-%d %H:%M:%S%.9f%:z").unwrap();
            assert_eq!(read.timestamp_nanos_opt(), Some(moment as i64));
        }
    }
}

#[test]
fn the_size_grows_with_what_is_added() {
    let event = histogram();
    let before = event.estimated_size();
    let wider = event.clone().with_field("env", Json::from_text("prod"));
    assert_eq!(wider.estimated_size(), before + 3 + 6 + 4);
    let mut labelled = event.clone();
    labelled.attributes.insert("k".to_owned(), Json::Null);
    assert_eq!(labelled.estimated_size(), before + 1 + 4 + 4);
    let mut counted = event.clone();
    counted.bucket_counts.push(1);
    counted.explicit_bounds.push(double(1.0));
    counted.positive_bucket_counts.push(1);
    counted.negative_bucket_counts.push(1);
    assert_eq!(counted.estimated_size(), before + 80);
    let mut summed = event.clone();
    summed.quantiles.push(Quantile::default());
    assert_eq!(summed.estimated_size(), before + 40);
}

#[test]
fn a_line_shows_the_value_or_the_sum() {
    let mut event = histogram();
    event.value = double(1.5);
    assert_eq!(event.line_number(), double(123.5));
    event.metric_type = MetricType::Summary;
    assert_eq!(event.line_number(), double(123.5));
    event.metric_type = MetricType::Sum;
    assert_eq!(event.line_number(), double(1.5));
    event.metric_type = MetricType::Gauge;
    assert_eq!(event.line_number(), double(1.5));
}
