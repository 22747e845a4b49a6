use cdc_router::transform::{ConfigError, FlinkKafkaTransform, Kafka, Transform};

fn kafka() -> Kafka {
    Kafka::new(
        "localhost:9092".to_string(),
        "group-1".to_string(),
        vec!["cdc.orders".to_string()],
    )
}

fn rule(source_topic: &str, db: &str, table: &str, target_topic: &str) -> Transform {
    Transform::new(
        source_topic.to_string(),
        db.to_string(),
        table.to_string(),
        target_topic.to_string(),
    )
}

#[test]
fn test_regex_match() {
    let table = FlinkKafkaTransform::new(
        kafka(),
        vec![rule("t1", "db1", "gsms_msg_ticket_sms_[0-9]+", "out")],
    )
    .unwrap();

    let matched = table.search_topic("t1", "db1", "gsms_msg_ticket_sms_1009");
    assert_eq!(matched, Some("out"));

    let unmatched = table.search_topic("t1", "db1", "gsms_msg_frame_0908");
    assert!(unmatched.is_none());
}

#[test]
fn test_match_target_topic() {
    let config = FlinkKafkaTransform::new(
        kafka(),
        vec![
            rule("t1", "db1", "sedp_province_channel_monitor", "monitor-out"),
            rule(
                "t1",
                "db1",
                "gsms_msg_frame_mms_[0-9]+",
                "test-kafka-sedp-gsms-msg-frame-mms",
            ),
        ],
    )
    .unwrap();

    let result = config.search_topic("t1", "db1", "sedp_province_channel_monitor_plan");
    assert!(result.is_some());
    let result = config.search_topic("t1", "db1", "no_topic");
    assert!(result.is_none());
    let result = config.search_topic("t1", "db1", "gsms_msg_frame_mms_0908");
    assert!(result.is_some());
    assert_eq!(result.unwrap(), "test-kafka-sedp-gsms-msg-frame-mms");
}

#[test]
fn earliest_rule_wins_on_overlap() {
    let config = FlinkKafkaTransform::new(
        kafka(),
        vec![
            rule("cdc.orders", "shop", "orders_[0-9]+", "first-out"),
            rule("cdc.orders", "shop", "orders_", "second-out"),
        ],
    )
    .unwrap();

    // Both table patterns match; the earlier-declared rule decides.
    assert_eq!(
        config.search_topic("cdc.orders", "shop", "orders_42"),
        Some("first-out")
    );
    // Only the later rule matches this one.
    assert_eq!(
        config.search_topic("cdc.orders", "shop", "orders_x"),
        Some("second-out")
    );
}

#[test]
fn source_topic_and_db_are_exact_and_case_sensitive() {
    let config = FlinkKafkaTransform::new(
        kafka(),
        vec![rule("cdc.orders", "shop", "orders", "orders-out")],
    )
    .unwrap();

    assert_eq!(
        config.search_topic("cdc.orders", "shop", "orders_7"),
        Some("orders-out")
    );
    assert!(config.search_topic("cdc.Orders", "shop", "orders_7").is_none());
    assert!(config.search_topic("cdc.orders", "Shop", "orders_7").is_none());
    assert!(config.search_topic("cdc.orders2", "shop", "orders_7").is_none());
}

#[test]
fn table_pattern_is_substring_matched() {
    let config = FlinkKafkaTransform::new(
        kafka(),
        vec![rule("t", "d", "orders_[0-9]+", "out")],
    )
    .unwrap();

    // A match anywhere within the table name is enough.
    assert_eq!(config.search_topic("t", "d", "orders_71_archive"), Some("out"));
    assert_eq!(config.search_topic("t", "d", "old_orders_71"), Some("out"));
    assert!(config.search_topic("t", "d", "orders_x").is_none());
}

#[test]
fn invalid_pattern_fails_the_whole_load() {
    let result = FlinkKafkaTransform::new(
        kafka(),
        vec![
            rule("t", "d", "fine_[0-9]+", "out"),
            rule("t", "d", "broken[", "out"),
        ],
    );
    match result {
        Err(ConfigError::InvalidTablePattern { index }) => assert_eq!(index, 1),
        Ok(_) => panic!("a rule set with an invalid pattern must be rejected"),
    }
}

#[test]
fn kafka_settings_round_trip() {
    let k = Kafka::new(
        "broker-a:9092,broker-b:9092".to_string(),
        "router-group".to_string(),
        vec!["topic-a".to_string(), "topic-b".to_string()],
    );
    assert_eq!(k.bootstrap_servers(), "broker-a:9092,broker-b:9092");
    assert_eq!(k.group(), "router-group");
    assert_eq!(k.binding_topics(), vec!["topic-a", "topic-b"]);

    let t = rule("s", "d", "p", "out");
    assert_eq!(t.table(), "p");
    assert_eq!(t.target_topic(), "out");

    let table = FlinkKafkaTransform::new(k, vec![t]).unwrap();
    assert_eq!(table.bootstrap_servers(), "broker-a:9092,broker-b:9092");
    assert_eq!(table.group(), "router-group");
    assert_eq!(table.binding_topics(), vec!["topic-a", "topic-b"]);
}
