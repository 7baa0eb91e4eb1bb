//! Unit tests of the row codec, rows, schema validation, statement
//! handling and the filter predicate.

use rowstore::{
    decode_row, encode_row, matches_where_clause, rows_equal, statement_row, values_equal,
    Column, ColumnKind, Row, Schema, Statement, StatementType, StoreError, Value, WhereClause,
};

fn user_schema() -> Schema {
    Schema::new(vec![
        Column { name: "id".to_string(), kind: ColumnKind::Integer },
        Column { name: "username".to_string(), kind: ColumnKind::Text(32) },
        Column { name: "email".to_string(), kind: ColumnKind::Text(255) },
    ])
    .unwrap()
}

fn user_row(id: i64, username: &str, email: &str) -> Row {
    let mut row = Row::new();
    row.set("id".to_string(), Value::Integer(id));
    row.set("username".to_string(), Value::Text(username.to_string()));
    row.set("email".to_string(), Value::Text(email.to_string()));
    row
}

#[test]
fn round_trip_conforming_row() {
    let schema = user_schema();
    let row = user_row(1, "ann", "ann@x.com");
    let bytes = encode_row(&row, &schema).unwrap();
    assert_eq!(bytes.len(), 8 + (4 + 32) + (4 + 255));
    let back = decode_row(&bytes, &schema).unwrap();
    assert!(rows_equal(&back, &row));
}

#[test]
fn round_trip_edge_values() {
    let schema = user_schema();
    for row in [
        user_row(i64::MIN, "", ""),
        user_row(i64::MAX, &"a".repeat(32), &"é".repeat(127)),
        user_row(-1, "héllo wörld", "naïve@exämple.com"),
        user_row(0, "snowman ☃", "☃@x.com"),
    ] {
        let bytes = encode_row(&row, &schema).unwrap();
        let back = decode_row(&bytes, &schema).unwrap();
        assert!(rows_equal(&back, &row));
    }
}

#[test]
fn integer_byte_layout_is_little_endian() {
    let schema = Schema::new(vec![Column {
        name: "id".to_string(),
        kind: ColumnKind::Integer,
    }])
    .unwrap();
    let mut row = Row::new();
    row.set("id".to_string(), Value::Integer(0x0102030405060708));
    let bytes = encode_row(&row, &schema).unwrap();
    assert_eq!(bytes, vec![0x08, 0x07, 0x06, 0x05, 0x04, 0x03, 0x02, 0x01]);
}

#[test]
fn text_slot_layout() {
    let schema = Schema::new(vec![Column {
        name: "note".to_string(),
        kind: ColumnKind::Text(6),
    }])
    .unwrap();
    let mut row = Row::new();
    row.set("note".to_string(), Value::Text("hi".to_string()));
    let bytes = encode_row(&row, &schema).unwrap();
    // 4-byte little-endian length prefix, the text, zero padding to the
    // 6-byte capacity.
    assert_eq!(bytes, vec![2, 0, 0, 0, b'h', b'i', 0, 0, 0, 0]);
}

#[test]
fn missing_values_encode_as_empty() {
    let schema = user_schema();
    let mut partial = Row::new();
    partial.set("username".to_string(), Value::Text("ann".to_string()));
    let bytes = encode_row(&partial, &schema).unwrap();
    let back = decode_row(&bytes, &schema).unwrap();
    // The absent integer reads back as zero, the absent text as empty.
    let expected = user_row(0, "ann", "");
    assert!(rows_equal(&back, &expected));
}

#[test]
fn oversized_text_fails_encode() {
    let schema = user_schema();
    let row = user_row(1, &"a".repeat(33), "a@x.com");
    assert_eq!(encode_row(&row, &schema), Err(StoreError::ValueTooLarge));
    // Byte length decides, not character count: 17 two-byte characters
    // exceed a 32-byte slot.
    let row2 = user_row(1, &"é".repeat(17), "a@x.com");
    assert_eq!(encode_row(&row2, &schema), Err(StoreError::ValueTooLarge));
}

#[test]
fn corrupt_prefix_fails_decode() {
    let schema = Schema::new(vec![Column {
        name: "note".to_string(),
        kind: ColumnKind::Text(4),
    }])
    .unwrap();
    let mut bytes = vec![0u8; 8];
    bytes[0..4].copy_from_slice(&5u32.to_le_bytes());
    assert!(matches!(decode_row(&bytes, &schema), Err(StoreError::CorruptRow)));
}

#[test]
fn schema_validation() {
    // An empty schema has a zero-byte row and is refused.
    assert!(Schema::new(vec![]).is_none());
    // A row wider than one page is refused.
    assert!(Schema::new(vec![Column {
        name: "big".to_string(),
        kind: ColumnKind::Text(4093),
    }])
    .is_none());
    // The widest acceptable text column fills the page exactly.
    assert!(Schema::new(vec![Column {
        name: "big".to_string(),
        kind: ColumnKind::Text(4092),
    }])
    .is_some());
    // Several columns are summed.
    assert!(Schema::new(vec![
        Column { name: "a".to_string(), kind: ColumnKind::Text(2044) },
        Column { name: "b".to_string(), kind: ColumnKind::Text(2044) },
    ])
    .is_some());
    assert!(Schema::new(vec![
        Column { name: "a".to_string(), kind: ColumnKind::Text(2044) },
        Column { name: "b".to_string(), kind: ColumnKind::Text(2045) },
    ])
    .is_none());
}

#[test]
fn row_set_replaces_and_get_finds() {
    let mut row = Row::new();
    row.set("id".to_string(), Value::Integer(1));
    row.set("id".to_string(), Value::Integer(2));
    assert_eq!(row.values.len(), 1);
    match row.get(&"id".to_string()) {
        Some(Value::Integer(2)) => {}
        _ => panic!("second binding replaces the first"),
    }
    assert!(row.get(&"missing".to_string()).is_none());
}

#[test]
fn value_and_row_equality() {
    assert!(values_equal(&Value::Integer(3), &Value::Integer(3)));
    assert!(!values_equal(&Value::Integer(3), &Value::Integer(4)));
    assert!(values_equal(
        &Value::Text("a".to_string()),
        &Value::Text("a".to_string())
    ));
    assert!(!values_equal(&Value::Integer(3), &Value::Text("3".to_string())));
    let a = user_row(1, "ann", "a@x.com");
    let b = user_row(1, "ann", "a@x.com");
    let c = user_row(1, "bob", "a@x.com");
    assert!(rows_equal(&a, &b));
    assert!(!rows_equal(&a, &c));
}

#[test]
fn where_clause_matching() {
    let row = user_row(1, "ann", "a@x.com");
    assert!(matches_where_clause(&row, &None));
    let eq = |column: &str, value: Value| {
        Some(WhereClause {
            column: column.to_string(),
            operator: "=".to_string(),
            value,
        })
    };
    assert!(matches_where_clause(&row, &eq("id", Value::Integer(1))));
    assert!(!matches_where_clause(&row, &eq("id", Value::Integer(2))));
    assert!(matches_where_clause(&row, &eq("username", Value::Text("ann".to_string()))));
    assert!(!matches_where_clause(&row, &eq("username", Value::Integer(1))));
    assert!(!matches_where_clause(&row, &eq("missing", Value::Integer(1))));
    // Only equality selects anything.
    let neq = Some(WhereClause {
        column: "id".to_string(),
        operator: "<".to_string(),
        value: Value::Integer(9),
    });
    assert!(!matches_where_clause(&row, &neq));
}

#[test]
fn statement_to_row() {
    let statement = Statement {
        statement_type: StatementType::Insert,
        table_name: "users".to_string(),
        columns: vec!["id".to_string(), "username".to_string()],
        values: vec![Value::Integer(5), Value::Text("eve".to_string())],
        where_clause: None,
    };
    let row = statement_row(&statement);
    assert_eq!(row.values.len(), 2);
    match row.get(&"username".to_string()) {
        Some(Value::Text(s)) => assert_eq!(s, "eve"),
        _ => panic!("username bound"),
    }
}
