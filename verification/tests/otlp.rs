use std::sync::Arc;

use metricpipe::double::Double;
use metricpipe::json::{Json, JsonMap, Number};
use metricpipe::otlp::model::{
    Any, AnyValue, Buckets, Data, ExponentialHistogram, ExponentialHistogramDataPoint,
    ExportRequest, Gauge, Histogram, HistogramDataPoint, InstrumentationScope, KeyValue, Metric,
    NumberDataPoint, NumberValue, Resource, ResourceMetrics, SampledValue, ScopeMetrics, Sum,
    Summary, SummaryDataPoint, ValueAtQuantile,
};
use metricpipe::otlp::normalize::{normalize, normalize_point};
use metricpipe::otlp::{
    attribute_value, attributes, convert, count_points, decode_json, decode_json_bytes, hex,
    points_lost, UNKNOWN_SERVICE,
};
use metricpipe::{MetricType, PipeError, Temporality};
use opentelemetry_proto::tonic::collector::metrics::v1 as proto;
use opentelemetry_proto::tonic::common::v1 as common;
use opentelemetry_proto::tonic::metrics::v1 as metrics;
use serde_json::Value;

fn double(value: f64) -> Double {
    Double {
        bits: value.to_bits(),
    }
}

fn float(value: Double) -> f64 {
    f64::from_bits(value.bits)
}

/// The request as the library holds it.
fn request_of(request: proto::ExportMetricsServiceRequest) -> ExportRequest {
    ExportRequest {
        resource_metrics: request
            .resource_metrics
            .into_iter()
            .map(|resource| ResourceMetrics {
                resource: resource.resource.map(|resource| Resource {
                    attributes: attributes_of(resource.attributes),
                }),
                scope_metrics: resource.scope_metrics.into_iter().map(scope_of).collect(),
            })
            .collect(),
    }
}

fn scope_of(scope: metrics::ScopeMetrics) -> ScopeMetrics {
    ScopeMetrics {
        scope: scope.scope.map(|scope| InstrumentationScope {
            name: scope.name,
            version: scope.version,
        }),
        metrics: scope.metrics.into_iter().map(metric_of).collect(),
    }
}

fn metric_of(metric: metrics::Metric) -> Metric {
    Metric {
        name: metric.name,
        description: metric.description,
        unit: metric.unit,
        data: metric.data.map(data_of),
    }
}

fn data_of(data: metrics::metric::Data) -> Data {
    match data {
        metrics::metric::Data::Gauge(gauge) => Data::Gauge(Gauge {
            data_points: gauge.data_points.into_iter().map(number_point_of).collect(),
        }),
        metrics::metric::Data::Sum(sum) => Data::Sum(Sum {
            data_points: sum.data_points.into_iter().map(number_point_of).collect(),
            aggregation_temporality: sum.aggregation_temporality,
            is_monotonic: sum.is_monotonic,
        }),
        metrics::metric::Data::Histogram(histogram) => Data::Histogram(Histogram {
            data_points: histogram
                .data_points
                .into_iter()
                .map(histogram_point_of)
                .collect(),
            aggregation_temporality: histogram.aggregation_temporality,
        }),
        metrics::metric::Data::ExponentialHistogram(histogram) => {
            Data::ExponentialHistogram(ExponentialHistogram {
                data_points: histogram
                    .data_points
                    .into_iter()
                    .map(exponential_point_of)
                    .collect(),
                aggregation_temporality: histogram.aggregation_temporality,
            })
        }
        metrics::metric::Data::Summary(summary) => Data::Summary(Summary {
            data_points: summary
                .data_points
                .into_iter()
                .map(summary_point_of)
                .collect(),
        }),
    }
}

fn number_point_of(point: metrics::NumberDataPoint) -> NumberDataPoint {
    NumberDataPoint {
        attributes: attributes_of(point.attributes),
        start_time_unix_nano: point.start_time_unix_nano,
        time_unix_nano: point.time_unix_nano,
        exemplars: point.exemplars.into_iter().map(sample_of).collect(),
        flags: point.flags,
        value: point.value.map(|value| match value {
            metrics::number_data_point::Value::AsDouble(d) => NumberValue::AsDouble(double(d)),
            metrics::number_data_point::Value::AsInt(i) => NumberValue::AsInt(i),
        }),
    }
}

fn histogram_point_of(point: metrics::HistogramDataPoint) -> HistogramDataPoint {
    HistogramDataPoint {
        attributes: attributes_of(point.attributes),
        start_time_unix_nano: point.start_time_unix_nano,
        time_unix_nano: point.time_unix_nano,
        count: point.count,
        sum: point.sum.map(double),
        bucket_counts: point.bucket_counts,
        explicit_bounds: point.explicit_bounds.into_iter().map(double).collect(),
        exemplars: point.exemplars.into_iter().map(sample_of).collect(),
        flags: point.flags,
        min: point.min.map(double),
        max: point.max.map(double),
    }
}

fn exponential_point_of(
    point: metrics::ExponentialHistogramDataPoint,
) -> ExponentialHistogramDataPoint {
    let buckets = |side: metrics::exponential_histogram_data_point::Buckets| Buckets {
        offset: side.offset,
        bucket_counts: side.bucket_counts,
    };
    ExponentialHistogramDataPoint {
        attributes: attributes_of(point.attributes),
        start_time_unix_nano: point.start_time_unix_nano,
        time_unix_nano: point.time_unix_nano,
        count: point.count,
        sum: point.sum.map(double),
        scale: point.scale,
        zero_count: point.zero_count,
        positive: point.positive.map(buckets),
        negative: point.negative.map(buckets),
        flags: point.flags,
        exemplars: point.exemplars.into_iter().map(sample_of).collect(),
        min: point.min.map(double),
        max: point.max.map(double),
        zero_threshold: double(point.zero_threshold),
    }
}

fn summary_point_of(point: metrics::SummaryDataPoint) -> SummaryDataPoint {
    SummaryDataPoint {
        attributes: attributes_of(point.attributes),
        start_time_unix_nano: point.start_time_unix_nano,
        time_unix_nano: point.time_unix_nano,
        count: point.count,
        sum: double(point.sum),
        quantile_values: point
            .quantile_values
            .into_iter()
            .map(|q| ValueAtQuantile {
                quantile: double(q.quantile),
                value: double(q.value),
            })
            .collect(),
        flags: point.flags,
    }
}

fn sample_of(sample: metrics::Exemplar) -> SampledValue {
    SampledValue {
        filtered_attributes: attributes_of(sample.filtered_attributes),
        time_unix_nano: sample.time_unix_nano,
        span_id: sample.span_id,
        trace_id: sample.trace_id,
        value: sample.value.map(|value| match value {
            metrics::exemplar::Value::AsDouble(d) => NumberValue::AsDouble(double(d)),
            metrics::exemplar::Value::AsInt(i) => NumberValue::AsInt(i),
        }),
    }
}

fn attributes_of(list: Vec<common::KeyValue>) -> Vec<KeyValue> {
    list.into_iter()
        .map(|kv| KeyValue {
            key: kv.key,
            value: kv.value.map(any_of),
        })
        .collect()
}

fn any_of(value: common::AnyValue) -> AnyValue {
    AnyValue {
        value: value.value.map(|value| match value {
            common::any_value::Value::StringValue(s) => Any::StringValue(s),
            common::any_value::Value::BoolValue(b) => Any::BoolValue(b),
            common::any_value::Value::IntValue(i) => Any::IntValue(i),
            common::any_value::Value::DoubleValue(d) => Any::DoubleValue(double(d)),
            common::any_value::Value::ArrayValue(array) => {
                Any::ArrayValue(array.values.into_iter().map(any_of).collect())
            }
            common::any_value::Value::KvlistValue(list) => Any::KvlistValue(attributes_of(list.values)),
            common::any_value::Value::BytesValue(bytes) => Any::BytesValue(bytes),
            common::any_value::Value::StringValueStrindex(i) => Any::StringValueStrindex(i),
        }),
    }
}

fn kv(key: &str, value: Any) -> KeyValue {
    KeyValue {
        key: key.to_owned(),
        value: Some(AnyValue { value: Some(value) }),
    }
}

/// An export of one metric and nothing else.
fn request(metric: Metric) -> ExportRequest {
    ExportRequest {
        resource_metrics: vec![ResourceMetrics {
            resource: None,
            scope_metrics: vec![ScopeMetrics {
                scope: None,
                metrics: vec![metric],
            }],
        }],
    }
}

fn metric(name: &str, data: Option<Data>) -> Metric {
    Metric {
        name: name.to_owned(),
        description: String::new(),
        unit: String::new(),
        data,
    }
}

fn number_point() -> NumberDataPoint {
    NumberDataPoint {
        attributes: Vec::new(),
        start_time_unix_nano: 0,
        time_unix_nano: 0,
        exemplars: Vec::new(),
        flags: 0,
        value: None,
    }
}

fn text(value: &str) -> Json {
    Json::from_text(value)
}

#[test]
fn hex_is_lowercase_and_empty_for_missing() {
    assert_eq!(hex(&[0xe8, 0x9a, 0x47, 0x68]), "e89a4768");
    assert_eq!(hex(&[]), "");
    assert_eq!(hex(&[0u8; 16]).len(), 32);
}

#[test]
fn attribute_values_keep_their_types() {
    let attrs = attributes(vec![
        kv("s", Any::StringValue("x".into())),
        kv("b", Any::BoolValue(true)),
        kv("i", Any::IntValue(-7)),
        kv("d", Any::DoubleValue(double(1.5))),
        kv("bytes", Any::BytesValue(vec![0xde, 0xad])),
        kv(
            "arr",
            Any::ArrayValue(vec![
                AnyValue {
                    value: Some(Any::IntValue(1)),
                },
                AnyValue {
                    value: Some(Any::StringValue("two".into())),
                },
            ]),
        ),
        kv("obj", Any::KvlistValue(vec![kv("k", Any::BoolValue(false))])),
        KeyValue {
            key: "empty".into(),
            value: None,
        },
    ]);
    let mut obj = JsonMap::new();
    obj.insert("k".to_owned(), Json::Bool(false));
    assert_eq!(attrs.get("s"), Some(&text("x")));
    assert_eq!(attrs.get("b"), Some(&Json::Bool(true)));
    assert_eq!(attrs.get("i"), Some(&Json::from_i64(-7)));
    assert_eq!(
        attrs.get("d"),
        Some(&Json::Number(Number::Float(double(1.5))))
    );
    assert_eq!(attrs.get("bytes"), Some(&text("3q0=")));
    assert_eq!(
        attrs.get("arr"),
        Some(&Json::Array(vec![Json::from_i64(1), text("two")]))
    );
    assert_eq!(attrs.get("obj"), Some(&Json::Object(obj)));
    assert_eq!(attrs.get("empty"), Some(&Json::Null));
}

#[test]
fn sum_keeps_temporality_and_monotonicity() {
    let events = convert(
        request(Metric {
            name: "http.server.request.count".into(),
            unit: "1".into(),
            description: String::new(),
            data: Some(Data::Sum(Sum {
                data_points: vec![NumberDataPoint {
                    time_unix_nano: 1_789_000_000_000_000_000,
                    start_time_unix_nano: 1_788_000_000_000_000_000,
                    value: Some(NumberValue::AsInt(12)),
                    attributes: vec![kv("http.route", Any::StringValue("/orders".into()))],
                    ..number_point()
                }],
                aggregation_temporality: 2,
                is_monotonic: true,
            })),
        }),
        None,
    );

    assert_eq!(events.len(), 1);
    let event = &events[0];
    assert_eq!(&*event.metric_name, "http.server.request.count");
    assert_eq!(event.metric_type, MetricType::Sum);
    assert_eq!(event.temporality, Temporality::Cumulative);
    assert!(event.is_monotonic);
    assert_eq!(float(event.value), 12.0);
    assert_eq!(event.timestamp, 1_789_000_000_000_000_000);
    assert_eq!(event.start_timestamp, 1_788_000_000_000_000_000);
    assert_eq!(&*event.service_name, UNKNOWN_SERVICE);
    assert_eq!(event.attribute("http.route"), Some(&text("/orders")));
}

#[test]
fn histogram_keeps_buckets_and_exemplars() {
    let events = convert(
        request(metric(
            "http.server.request.duration",
            Some(Data::Histogram(Histogram {
                data_points: vec![HistogramDataPoint {
                    attributes: Vec::new(),
                    start_time_unix_nano: 0,
                    flags: 0,
                    time_unix_nano: 10,
                    count: 7,
                    sum: Some(double(123.5)),
                    min: Some(double(1.0)),
                    max: Some(double(90.0)),
                    bucket_counts: vec![3, 3, 1],
                    explicit_bounds: vec![double(5.0), double(50.0)],
                    exemplars: vec![SampledValue {
                        time_unix_nano: 9,
                        value: Some(NumberValue::AsDouble(double(90.0))),
                        trace_id: vec![0xe8; 16],
                        span_id: vec![0x0a; 8],
                        filtered_attributes: vec![kv("pod", Any::StringValue("p-1".into()))],
                    }],
                }],
                aggregation_temporality: 1,
            })),
        )),
        None,
    );

    let event = &events[0];
    assert_eq!(event.metric_type, MetricType::Histogram);
    assert_eq!(event.temporality, Temporality::Delta);
    assert_eq!(event.count, 7);
    assert_eq!(float(event.sum), 123.5);
    assert_eq!(float(event.min), 1.0);
    assert_eq!(float(event.max), 90.0);
    assert_eq!(event.bucket_counts, [3, 3, 1]);
    assert_eq!(event.explicit_bounds, [double(5.0), double(50.0)]);
    assert_eq!(event.exemplars.len(), 1);
    assert_eq!(event.exemplars[0].trace_id.len(), 32);
    assert_eq!(event.exemplars[0].span_id, "0a0a0a0a0a0a0a0a");
    assert_eq!(float(event.exemplars[0].value), 90.0);
    assert_eq!(event.exemplars[0].attributes.get("pod"), Some(&text("p-1")));
    assert_eq!(float(event.value), 0.0);
}

#[test]
fn exponential_histogram_and_summary() {
    let events = convert(
        request(metric(
            "rpc.duration",
            Some(Data::ExponentialHistogram(ExponentialHistogram {
                data_points: vec![ExponentialHistogramDataPoint {
                    attributes: Vec::new(),
                    start_time_unix_nano: 0,
                    flags: 0,
                    exemplars: Vec::new(),
                    min: None,
                    max: None,
                    time_unix_nano: 10,
                    count: 5,
                    sum: Some(double(9.0)),
                    scale: 3,
                    zero_count: 1,
                    zero_threshold: double(1e-9),
                    positive: Some(Buckets {
                        offset: 2,
                        bucket_counts: vec![1, 2],
                    }),
                    negative: Some(Buckets {
                        offset: -1,
                        bucket_counts: vec![1],
                    }),
                }],
                aggregation_temporality: 2,
            })),
        )),
        None,
    );
    let event = &events[0];
    assert_eq!(event.metric_type, MetricType::ExponentialHistogram);
    assert_eq!(event.scale, 3);
    assert_eq!(event.zero_count, 1);
    assert_eq!(float(event.zero_threshold), 1e-9);
    assert_eq!(event.positive_offset, 2);
    assert_eq!(event.positive_bucket_counts, [1, 2]);
    assert_eq!(event.negative_offset, -1);
    assert_eq!(event.negative_bucket_counts, [1]);

    let events = convert(
        request(metric(
            "jvm.gc.duration",
            Some(Data::Summary(Summary {
                data_points: vec![SummaryDataPoint {
                    attributes: Vec::new(),
                    start_time_unix_nano: 0,
                    flags: 0,
                    time_unix_nano: 10,
                    count: 3,
                    sum: double(6.0),
                    quantile_values: vec![
                        ValueAtQuantile {
                            quantile: double(0.5),
                            value: double(1.5),
                        },
                        ValueAtQuantile {
                            quantile: double(0.99),
                            value: double(4.0),
                        },
                    ],
                }],
            })),
        )),
        None,
    );
    let event = &events[0];
    assert_eq!(event.metric_type, MetricType::Summary);
    assert_eq!(event.temporality, Temporality::Unspecified);
    assert_eq!(event.quantiles.len(), 2);
    assert_eq!(float(event.quantiles[1].quantile), 0.99);
    assert_eq!(float(event.quantiles[1].value), 4.0);
}

#[test]
fn decodes_otlp_json_with_string_encoded_nanos() {
    let (request, expected) = decode_json(
        r#"{"resourceMetrics":[{"resource":{"attributes":[{"key":"service.name","value":{"stringValue":"order-service"}}]},"scopeMetrics":[{"scope":{"name":"io.opentelemetry.runtime-telemetry","version":"2.9.0"},"metrics":[{"name":"jvm.memory.used","unit":"By","description":"Measure of memory used","gauge":{"dataPoints":[{"timeUnixNano":"1789000000000000000","asInt":"123456","attributes":[{"key":"jvm.memory.type","value":{"stringValue":"heap"}}]}]}}]}]}]}"#,
    )
    .unwrap();
    assert_eq!(expected, 1);
    let events = convert(request_of(request), None);

    assert_eq!(events.len(), 1);
    let event = &events[0];
    assert_eq!(&*event.service_name, "order-service");
    assert_eq!(&*event.scope_name, "io.opentelemetry.runtime-telemetry");
    assert_eq!(&*event.metric_name, "jvm.memory.used");
    assert_eq!(&*event.metric_unit, "By");
    assert_eq!(&*event.metric_description, "Measure of memory used");
    assert_eq!(event.metric_type, MetricType::Gauge);
    assert_eq!(float(event.value), 123_456.0);
    assert_eq!(event.timestamp, 1_789_000_000_000_000_000);
    assert_eq!(event.attribute("jvm.memory.type"), Some(&text("heap")));
    assert_eq!(
        event.attribute("service.name"),
        Some(&text("order-service"))
    );
}

#[test]
fn realistic_otlp_json_keeps_every_data_point() {
    let (request, expected) = decode_json(
        r#"{"resourceMetrics":[{"resource":{"attributes":[{"key":"service.name","value":{"stringValue":"order-service"}}]},"scopeMetrics":[{"scope":{"name":"app"},"metrics":[
                {"name":"g","gauge":{"dataPoints":[{"timeUnixNano":"10","asInt":"123456"}]}},
                {"name":"s","sum":{"aggregationTemporality":2,"isMonotonic":true,"dataPoints":[{"timeUnixNano":"10","asInt":"12"}]}},
                {"name":"h","histogram":{"aggregationTemporality":1,"dataPoints":[{"timeUnixNano":"10","count":"7","sum":123.5,"bucketCounts":["3","3","1"],"explicitBounds":[5,50],"exemplars":[{"timeUnixNano":"9","asDouble":90,"traceId":"e89a476882236ce0f1186d1522c8f59f","spanId":"e8b0e73e2132f21c"}]}]}},
                {"name":"e","exponentialHistogram":{"aggregationTemporality":2,"dataPoints":[{"timeUnixNano":"10","count":"5","scale":3,"positive":{"bucketCounts":["1","2"]},"negative":{"offset":-1,"bucketCounts":["1"]},"exemplars":[{"timeUnixNano":"9","asInt":"90"}]}]}},
                {"name":"q","summary":{"dataPoints":[{"timeUnixNano":"10","count":"3","sum":6.0,"quantileValues":[{"value":1.5},{"quantile":0.99,"value":4.0}]}]}}
            ]}]}]}"#,
    )
    .unwrap();
    let request = request_of(request);
    assert_eq!(expected, 5);
    assert_eq!(points_lost(&request, expected), None);
    let events = convert(request, None);

    let names: Vec<&str> = events.iter().map(|e| &*e.metric_name).collect();
    assert_eq!(names, ["g", "s", "h", "e", "q"], "有指标被静默丢了");

    assert_eq!(float(events[0].value), 123_456.0);
    assert_eq!(float(events[1].value), 12.0);
    assert!(events[1].is_monotonic);

    assert_eq!(events[2].exemplars.len(), 1);
    assert_eq!(float(events[2].exemplars[0].value), 90.0);
    assert_eq!(
        events[2].exemplars[0].trace_id,
        "e89a476882236ce0f1186d1522c8f59f"
    );
    assert_eq!(
        float(events[3].exemplars[0].value),
        90.0,
        "exemplar 的 asInt 也是串"
    );
    assert!(events[3].exemplars[0].trace_id.is_empty());

    assert_eq!(events[3].positive_offset, 0);
    assert_eq!(events[3].positive_bucket_counts, [1, 2]);
    assert_eq!(events[3].negative_offset, -1);

    assert_eq!(events[4].quantiles.len(), 2);
    assert_eq!(float(events[4].quantiles[0].quantile), 0.0);
    assert_eq!(float(events[4].quantiles[0].value), 1.5);
    assert_eq!(float(events[4].quantiles[1].quantile), 0.99);
}

#[test]
fn resource_and_metric_level_fields_are_shared() {
    let mut metric = metric(
        "system.cpu.time",
        Some(Data::Gauge(Gauge {
            data_points: vec![number_point(), number_point()],
        })),
    );
    metric.description = "cpu".into();
    let events = convert(request(metric), None);

    assert_eq!(events.len(), 2);
    assert!(Arc::ptr_eq(
        &events[0].resource_attributes,
        &events[1].resource_attributes
    ));
    assert!(Arc::ptr_eq(&events[0].metric_name, &events[1].metric_name));
}

#[test]
fn metric_without_data_points_is_skipped() {
    assert!(convert(request(metric("empty", None)), None).is_empty());
    assert!(convert(
        request(metric(
            "empty",
            Some(Data::Gauge(Gauge {
                data_points: Vec::new()
            }))
        )),
        None
    )
    .is_empty());
}

#[test]
fn shared_columns_and_the_service_are_on_every_event() {
    let mut shared = JsonMap::new();
    shared.insert("cluster".to_owned(), text("bj-prod"));
    let shared = Arc::new(shared);
    let scope = |name: &str, points: usize| ScopeMetrics {
        scope: Some(InstrumentationScope {
            name: name.to_owned(),
            version: "1.0".to_owned(),
        }),
        metrics: vec![metric(
            "m",
            Some(Data::Gauge(Gauge {
                data_points: (0..points).map(|_| number_point()).collect(),
            })),
        )],
    };
    let resource = |service: Any, scopes: Vec<ScopeMetrics>| ResourceMetrics {
        resource: Some(Resource {
            attributes: vec![kv("service.name", service)],
        }),
        scope_metrics: scopes,
    };
    let export = ExportRequest {
        resource_metrics: vec![
            resource(
                Any::StringValue("a".into()),
                vec![scope("x", 2), scope("y", 1)],
            ),
            resource(Any::StringValue(String::new()), vec![scope("z", 1)]),
            resource(Any::IntValue(3), vec![scope("w", 1)]),
        ],
    };
    assert_eq!(count_points(&export), 5);
    assert_eq!(points_lost(&export, 5), None);
    assert_eq!(points_lost(&export, 6), Some(5));
    let events = convert(export, Some(&shared));
    let seen: Vec<(&str, &str)> = events
        .iter()
        .map(|e| (&*e.service_name, &*e.scope_name))
        .collect();
    assert_eq!(
        seen,
        [
            ("a", "x"),
            ("a", "x"),
            ("a", "y"),
            (UNKNOWN_SERVICE, "z"),
            (UNKNOWN_SERVICE, "w"),
        ]
    );
    for event in &events {
        assert_eq!(&*event.scope_version, "1.0");
        assert!(Arc::ptr_eq(event.shared.as_ref().unwrap(), &shared));
        assert_eq!(event.fields.len(), 0);
        assert_eq!(event.count, 0);
        assert!(event.quantiles.is_empty() && event.bucket_counts.is_empty());
    }
}

#[test]
fn the_last_of_two_attributes_counts() {
    let attrs = attributes(vec![
        kv("k", Any::IntValue(1)),
        kv("a", Any::IntValue(2)),
        kv("k", Any::IntValue(3)),
    ]);
    assert_eq!(attrs.len(), 2);
    assert_eq!(attrs.get("k"), Some(&Json::from_i64(3)));
    assert_eq!(attrs.get("a"), Some(&Json::from_i64(2)));
    assert_eq!(attrs.get("other"), None);
}

#[test]
fn values_without_a_form_in_json_are_null() {
    let value = |any: Any| attribute_value(Some(AnyValue { value: Some(any) }));
    assert_eq!(value(Any::DoubleValue(double(f64::NAN))), Json::Null);
    assert_eq!(value(Any::DoubleValue(double(f64::INFINITY))), Json::Null);
    assert_eq!(value(Any::StringValueStrindex(3)), Json::Null);
    assert_eq!(attribute_value(None), Json::Null);
    assert_eq!(attribute_value(Some(AnyValue { value: None })), Json::Null);
    assert_eq!(
        value(Any::ArrayValue(vec![AnyValue { value: None }])),
        Json::Array(vec![Json::Null])
    );
    assert_eq!(
        value(Any::IntValue(i64::MAX)),
        Json::Number(Number::PosInt(i64::MAX as u64))
    );
    assert_eq!(
        value(Any::IntValue(i64::MIN)),
        Json::Number(Number::NegInt(i64::MIN))
    );
}

#[test]
fn bytes_are_written_in_base64() {
    let base64 = |bytes: &[u8]| {
        attribute_value(Some(AnyValue {
            value: Some(Any::BytesValue(bytes.to_vec())),
        }))
    };
    assert_eq!(base64(b""), text(""));
    assert_eq!(base64(b"f"), text("Zg=="));
    assert_eq!(base64(b"fo"), text("Zm8="));
    assert_eq!(base64(b"foo"), text("Zm9v"));
    assert_eq!(base64(b"foobar"), text("Zm9vYmFy"));
    assert_eq!(base64(&[0xfb, 0xff, 0xfe]), text("+//+"));
}

#[test]
fn counters_and_missing_numbers() {
    let data = |value| {
        Some(Data::Gauge(Gauge {
            data_points: vec![NumberDataPoint {
                value,
                flags: 1,
                ..number_point()
            }],
        }))
    };
    let value = |number| {
        let events = convert(request(metric("m", data(number))), None);
        assert_eq!(events[0].flags, 1);
        float(events[0].value)
    };
    assert_eq!(value(None), 0.0);
    assert_eq!(value(Some(NumberValue::AsInt(i64::MAX))), i64::MAX as f64);
    assert_eq!(value(Some(NumberValue::AsInt(-3))), -3.0);
    assert_eq!(value(Some(NumberValue::AsDouble(double(-0.5)))), -0.5);
}

#[test]
fn int_values_of_json_are_kept() {
    let (request, expected) = decode_json(
        r#"{"resourceMetrics":[{"scopeMetrics":[{"metrics":[{"name":"m","gauge":{"dataPoints":[{"asInt":"123456"},{"asInt":-7},{"asDouble":2.5}]}}]}]}]}"#,
    )
    .unwrap();
    assert_eq!(expected, 3);
    let events = convert(request_of(request), None);
    let values: Vec<f64> = events.iter().map(|e| float(e.value)).collect();
    assert_eq!(values, [123_456.0, -7.0, 2.5]);
}

#[test]
fn text_that_is_no_request_is_refused() {
    for text in ["{not json", "", "[1,2", r#"{"resourceMetrics":"x"}"#, "3"] {
        assert!(
            matches!(decode_json(text), Err(PipeError::Json(_))),
            "{text}"
        );
    }
    assert!(matches!(
        decode_json_bytes(&[0xff, 0xfe]),
        Err(PipeError::Json(_))
    ));
    let (request, expected) = decode_json_bytes(br#"{"resourceMetrics":[]}"#).unwrap();
    assert_eq!(expected, 0);
    assert!(convert(request_of(request), None).is_empty());
}

fn parsed(text: &str) -> Value {
    serde_json::from_str(text).unwrap()
}

fn normalized(text: &str) -> (Value, usize) {
    let mut value = parsed(text);
    let points = normalize(&mut value);
    (value, points)
}

fn one_point(kind: &str, point: &str) -> Value {
    let text = format!(
        r#"{{"resourceMetrics":[{{"scopeMetrics":[{{"metrics":[{{"{kind}":{{"dataPoints":[{point}]}}}}]}}]}}]}}"#
    );
    let (value, points) = normalized(&text);
    assert_eq!(points, 1);
    value["resourceMetrics"][0]["scopeMetrics"][0]["metrics"][0][kind]["dataPoints"][0].clone()
}

#[test]
fn whole_numbers_in_texts_are_read() {
    for (raw, read) in [
        (r#""123""#, "123"),
        (r#""+5""#, "5"),
        (r#""-0""#, "0"),
        (r#""007""#, "7"),
        (r#""9223372036854775807""#, "9223372036854775807"),
        (r#""-9223372036854775808""#, "-9223372036854775808"),
        (r#""9223372036854775808""#, r#""9223372036854775808""#),
        (r#""1.5""#, r#""1.5""#),
        (r#"" 1""#, r#"" 1""#),
        (r#""""#, r#""""#),
        (r#""-""#, r#""-""#),
        ("12", "12"),
        ("null", "null"),
    ] {
        let point = one_point("gauge", &format!(r#"{{"asInt":{raw}}}"#));
        assert_eq!(point, parsed(&format!(r#"{{"asInt":{read}}}"#)), "{raw}");
    }
}

#[test]
fn exemplars_get_their_fields_and_their_number_one_level_down() {
    let exemplar = |fields: &str| {
        let point = one_point("sum", &format!(r#"{{"exemplars":[{fields}]}}"#));
        point["exemplars"][0].clone()
    };
    assert_eq!(
        exemplar(r#"{"asInt":"90","asDouble":1.5}"#),
        parsed(
            r#"{"value":{"asDouble":1.5},"asInt":90,"filteredAttributes":[],"timeUnixNano":"0","spanId":"","traceId":""}"#
        )
    );
    assert_eq!(
        exemplar(r#"{"asInt":"90","timeUnixNano":"9","traceId":"ab"}"#),
        parsed(
            r#"{"value":{"asInt":90},"filteredAttributes":[],"timeUnixNano":"9","spanId":"","traceId":"ab"}"#
        )
    );
    assert_eq!(
        exemplar(r#"{"value":{"asInt":1},"asDouble":2}"#),
        parsed(
            r#"{"value":{"asInt":1},"asDouble":2,"filteredAttributes":[],"timeUnixNano":"0","spanId":"","traceId":""}"#
        )
    );
    assert_eq!(exemplar("3"), parsed("3"));
}

#[test]
fn points_of_exponential_histograms_and_summaries_get_their_fields() {
    assert_eq!(
        one_point(
            "exponentialHistogram",
            r#"{"count":"5","positive":{"bucketCounts":["1"]},"negative":{},"sum":2}"#
        ),
        parsed(
            r#"{"attributes":[],"startTimeUnixNano":"0","timeUnixNano":"0","count":"5","scale":0,"zeroCount":"0","zeroThreshold":0.0,"flags":0,"exemplars":[],"positive":{"offset":0,"bucketCounts":["1"]},"negative":{"offset":0,"bucketCounts":[]},"sum":2}"#
        )
    );
    assert_eq!(
        one_point("summary", r#"{"quantileValues":[{},{"quantile":0.5},7]}"#),
        parsed(
            r#"{"quantileValues":[{"quantile":0.0,"value":0.0},{"quantile":0.5,"value":0.0},7]}"#
        )
    );
    assert_eq!(
        one_point("histogram", r#"{"positive":{},"quantileValues":[{}]}"#),
        parsed(r#"{"positive":{},"quantileValues":[{}]}"#)
    );
}

#[test]
fn what_is_not_there_is_neither_filled_in_nor_counted() {
    for text in [
        "3",
        "[]",
        "{}",
        r#"{"resourceMetrics":{}}"#,
        r#"{"resourceMetrics":[1,{"scopeMetrics":[{"metrics":[{"name":"m"},{"gauge":3}]}]}]}"#,
    ] {
        assert_eq!(normalized(text), (parsed(text), 0), "{text}");
    }
    let (_, points) = normalized(
        r#"{"resourceMetrics":[{"scopeMetrics":[{"metrics":[{"gauge":{"dataPoints":[1,{}]},"summary":{"dataPoints":[{}]}}]}]},{"scopeMetrics":[{"metrics":[{"sum":{"dataPoints":[{}]}}]}]}]}"#,
    );
    assert_eq!(points, 4);
}

#[test]
fn a_point_that_the_decoder_drops_is_noticed() {
    let (request, expected) = decode_json(
        r#"{"resourceMetrics":[{"scopeMetrics":[{"metrics":[{"name":"m","gauge":{"dataPoints":[{"attributes":3}]}},{"name":"n","gauge":{"dataPoints":[{"asInt":"1"}]}}]}]}]}"#,
    )
    .unwrap();
    assert_eq!(expected, 2);
    let request = request_of(request);
    assert_eq!(count_points(&request), 1);
    assert_eq!(points_lost(&request, expected), Some(1));
    let events = convert(request, None);
    assert_eq!(events.len(), 1);
    assert_eq!(&*events[0].metric_name, "n");
}

#[test]
fn a_second_pass_changes_nothing() {
    let text = r#"{"resourceMetrics":[{"scopeMetrics":[{"metrics":[
        {"gauge":{"dataPoints":[{"asInt":"12","exemplars":[{"asInt":"90","asDouble":1.5},{"value":1},3]},7]}},
        {"exponentialHistogram":{"dataPoints":[{"count":"5","extra":[1],"positive":{"bucketCounts":["1"],"x":2},"negative":3}]}},
        {"summary":{"dataPoints":[{"quantileValues":[{},{"quantile":0.5,"y":1},7]}]}}
    ]}]}]}"#;
    let (once, points) = normalized(text);
    let mut twice = once.clone();
    assert_eq!(normalize(&mut twice), points);
    assert_eq!(points, 4);
    assert_eq!(twice, once);
    let metrics = &once["resourceMetrics"][0]["scopeMetrics"][0]["metrics"];
    let point = &metrics[1]["exponentialHistogram"]["dataPoints"][0];
    assert_eq!(point["extra"], parsed("[1]"));
    assert_eq!(point["positive"], parsed(r#"{"bucketCounts":["1"],"x":2,"offset":0}"#));
    assert_eq!(point["negative"], parsed("3"));
}

#[test]
fn a_point_keeps_what_it_has_and_stays_the_second_time() {
    let text = r#"{"asInt":"5","extra":"7","exemplars":[{"asInt":"9"}],"positive":{"offset":4,"x":1},"negative":[],"quantileValues":[{"value":2,"z":3},8],"count":3}"#;
    for kind in ["gauge", "exponentialHistogram", "summary", "unheard-of"] {
        let before = parsed(text);
        let mut once = before.clone();
        normalize_point(&mut once, kind);
        let mut twice = once.clone();
        normalize_point(&mut twice, kind);
        assert_eq!(twice, once, "{kind}");
        for key in ["extra", "negative", "count"] {
            assert_eq!(once[key], before[key], "{kind} {key}");
        }
        assert_eq!(once["asInt"], 5);
        assert_eq!(once["exemplars"][0]["value"], parsed(r#"{"asInt":9}"#));
        assert_eq!(once["positive"]["offset"], 4);
        assert_eq!(once["positive"]["x"], 1);
        assert_eq!(
            once["positive"].get("bucketCounts").is_some(),
            kind == "exponentialHistogram"
        );
        assert_eq!(once["quantileValues"][0]["value"], 2);
        assert_eq!(once["quantileValues"][0]["z"], 3);
        assert_eq!(once["quantileValues"][1], 8);
        assert_eq!(
            once["quantileValues"][0].get("quantile").is_some(),
            kind == "summary"
        );
        assert_eq!(
            once.get("zeroThreshold").is_some(),
            kind == "exponentialHistogram"
        );
        for other in ["3", "[{}]", "null"] {
            let mut value = parsed(other);
            normalize_point(&mut value, kind);
            assert_eq!(value, parsed(other));
        }
    }
}
