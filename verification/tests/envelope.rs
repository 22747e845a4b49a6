use cdc_router::envelope::{parse_debezium, Op, ParseError};

#[test]
fn test_parse_debezium_json() {
    let json = r#"
        {
    "before": null,
    "after": {
        "id": 62,
        "update_time:"2025-08-07 13:37:45"
    },
    "op": "c",
    "source": {
        "db": "db_1",
        "table": "table_1"
    }
}
        "#;

    // The payload is not well-formed JSON (a quote is missing inside
    // `after`), so parsing must report an error rather than panic.
    let parsed = parse_debezium(json.as_bytes());
    assert!(parsed.is_err());
}

#[test]
fn well_formed_envelope_decodes_to_its_fields() {
    let json = r#"{"before":null,"after":{"id":62},"op":"u","source":{"db":"shop","table":"orders_7"}}"#;
    let ev = parse_debezium(json.as_bytes()).unwrap();
    assert_eq!(ev.op(), "u");
    assert_eq!(ev.db(), "shop");
    assert_eq!(ev.table(), "orders_7");
    assert_eq!(ev.op_kind(), Op::Update);
}

#[test]
fn missing_or_non_string_fields_are_malformed() {
    let missing_op = r#"{"source":{"db":"d","table":"t"}}"#;
    assert!(matches!(
        parse_debezium(missing_op.as_bytes()),
        Err(ParseError::Malformed)
    ));

    let missing_source = r#"{"op":"c"}"#;
    assert!(matches!(
        parse_debezium(missing_source.as_bytes()),
        Err(ParseError::Malformed)
    ));

    let missing_table = r#"{"op":"c","source":{"db":"d"}}"#;
    assert!(matches!(
        parse_debezium(missing_table.as_bytes()),
        Err(ParseError::Malformed)
    ));

    let numeric_db = r#"{"op":"c","source":{"db":7,"table":"t"}}"#;
    assert!(matches!(
        parse_debezium(numeric_db.as_bytes()),
        Err(ParseError::Malformed)
    ));

    let not_json = b"\xff\xfe not json";
    assert!(matches!(parse_debezium(not_json), Err(ParseError::Malformed)));
}

#[test]
fn operation_codes_classify_exactly() {
    assert_eq!(Op::from_code("c"), Op::Create);
    assert_eq!(Op::from_code("u"), Op::Update);
    assert_eq!(Op::from_code("d"), Op::Delete);
    assert_eq!(Op::from_code("r"), Op::SnapshotRead);
    assert_eq!(Op::from_code("x"), Op::Unknown);
    assert_eq!(Op::from_code(""), Op::Unknown);
    assert_eq!(Op::from_code("cc"), Op::Unknown);
}
