use cdc_router::pipeline::{Pipeline, PublishOutcome, RecordOutcome};
use cdc_router::transform::{FlinkKafkaTransform, Kafka, Transform};

fn orders_pipeline() -> Pipeline {
    let kafka = Kafka::new(
        "localhost:9092".to_string(),
        "router".to_string(),
        vec!["cdc.orders".to_string()],
    );
    let rules = vec![Transform::new(
        "cdc.orders".to_string(),
        "shop".to_string(),
        "^orders_[0-9]+$".to_string(),
        "orders-out".to_string(),
    )];
    Pipeline::new(FlinkKafkaTransform::new(kafka, rules).unwrap())
}

fn envelope(op: &str, db: &str, table: &str) -> String {
    format!(
        r#"{{"before":null,"after":{{"id":1}},"op":"{}","source":{{"db":"{}","table":"{}"}}}}"#,
        op, db, table
    )
}

#[test]
fn update_event_forwards_with_counters() {
    let mut p = orders_pipeline();

    let payload = envelope("u", "shop", "orders_7");
    let outcome = p.on_record("cdc.orders", payload.as_bytes());
    assert_eq!(
        outcome,
        RecordOutcome::Routed { destination: "orders-out".to_string(), op: "u".to_string() }
    );
    // Observed once, nothing forwarded until the publish is reported.
    assert_eq!(
        p.metrics().get_flink_cdc_event("cdc.orders", "shop", "orders_7", "u"),
        1
    );
    assert_eq!(p.metrics().get_flink_kafka_filter_transform("orders-out", "u"), 0);

    p.on_publish_outcome("orders-out", "u", PublishOutcome::Delivered);
    assert_eq!(p.metrics().get_flink_kafka_filter_transform("orders-out", "u"), 1);

    // A table outside the pattern is observed but never forwarded.
    let other = envelope("u", "shop", "customers_7");
    let outcome = p.on_record("cdc.orders", other.as_bytes());
    assert_eq!(outcome, RecordOutcome::NotRouted);
    assert_eq!(
        p.metrics().get_flink_cdc_event("cdc.orders", "shop", "customers_7", "u"),
        1
    );
    assert_eq!(p.metrics().get_flink_kafka_filter_transform("orders-out", "u"), 1);
}

#[test]
fn delete_never_forwards_even_when_a_rule_matches() {
    let mut p = orders_pipeline();

    let payload = envelope("d", "shop", "orders_7");
    let outcome = p.on_record("cdc.orders", payload.as_bytes());
    assert_eq!(outcome, RecordOutcome::DeleteDiscarded);

    // The delete was observed under its labels, but no forward happened.
    assert_eq!(
        p.metrics().get_flink_cdc_event("cdc.orders", "shop", "orders_7", "d"),
        1
    );
    assert_eq!(p.metrics().get_flink_kafka_filter_transform("orders-out", "d"), 0);
}

#[test]
fn malformed_payload_is_counted_and_does_not_halt() {
    let mut p = orders_pipeline();

    let outcome = p.on_record("cdc.orders", b"{ not json");
    assert_eq!(outcome, RecordOutcome::Malformed);
    assert_eq!(p.metrics().get_parse_errors(), 1);

    // The next record is still processed normally.
    let payload = envelope("c", "shop", "orders_8");
    let outcome = p.on_record("cdc.orders", payload.as_bytes());
    assert_eq!(
        outcome,
        RecordOutcome::Routed { destination: "orders-out".to_string(), op: "c".to_string() }
    );
    assert_eq!(p.metrics().get_parse_errors(), 1);
}

#[test]
fn publish_timeout_is_recorded_as_an_error() {
    let mut p = orders_pipeline();

    p.on_publish_outcome("orders-out", "u", PublishOutcome::TimedOut);
    assert_eq!(p.metrics().get_publish_errors(), 1);
    assert_eq!(p.metrics().get_flink_kafka_filter_transform("orders-out", "u"), 0);

    p.on_publish_outcome("orders-out", "u", PublishOutcome::BrokerError);
    assert_eq!(p.metrics().get_publish_errors(), 2);
    assert_eq!(p.metrics().get_flink_kafka_filter_transform("orders-out", "u"), 0);
}

#[test]
fn counters_are_exact_over_a_run() {
    let mut p = orders_pipeline();

    // Three updates on orders_7, two creates on orders_9, one unroutable.
    for _ in 0..3 {
        let payload = envelope("u", "shop", "orders_7");
        let outcome = p.on_record("cdc.orders", payload.as_bytes());
        assert!(matches!(outcome, RecordOutcome::Routed { .. }));
        p.on_publish_outcome("orders-out", "u", PublishOutcome::Delivered);
    }
    for _ in 0..2 {
        let payload = envelope("c", "shop", "orders_9");
        let outcome = p.on_record("cdc.orders", payload.as_bytes());
        assert!(matches!(outcome, RecordOutcome::Routed { .. }));
        p.on_publish_outcome("orders-out", "c", PublishOutcome::Delivered);
    }
    let stray = envelope("u", "billing", "orders_7");
    assert_eq!(p.on_record("cdc.orders", stray.as_bytes()), RecordOutcome::NotRouted);

    let m = p.metrics();
    assert_eq!(m.get_flink_cdc_event("cdc.orders", "shop", "orders_7", "u"), 3);
    assert_eq!(m.get_flink_cdc_event("cdc.orders", "shop", "orders_9", "c"), 2);
    assert_eq!(m.get_flink_cdc_event("cdc.orders", "billing", "orders_7", "u"), 1);
    assert_eq!(m.get_flink_cdc_event("cdc.orders", "shop", "orders_9", "u"), 0);
    assert_eq!(m.get_flink_kafka_filter_transform("orders-out", "u"), 3);
    assert_eq!(m.get_flink_kafka_filter_transform("orders-out", "c"), 2);
    assert_eq!(m.get_parse_errors(), 0);
    assert_eq!(m.get_publish_errors(), 0);

    // The exposition view carries the same exact values.
    let entries = m.cdc_event_entries();
    assert_eq!(entries.len(), 3);
    for (topic, db, table, op, value) in entries {
        assert_eq!(value, m.get_flink_cdc_event(&topic, &db, &table, &op));
    }
    let forwarded = m.transform_entries();
    assert_eq!(forwarded.len(), 2);
    for (topic, op, value) in forwarded {
        assert_eq!(value, m.get_flink_kafka_filter_transform(&topic, &op));
    }
}

#[test]
fn unknown_operation_still_routes() {
    let mut p = orders_pipeline();
    let payload = envelope("z", "shop", "orders_7");
    let outcome = p.on_record("cdc.orders", payload.as_bytes());
    assert_eq!(
        outcome,
        RecordOutcome::Routed { destination: "orders-out".to_string(), op: "z".to_string() }
    );
}
