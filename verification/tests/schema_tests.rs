use std::collections::HashMap;

use rusqlite::{params_from_iter, Connection};
use serde_json::{Number, Value};
use table_schema::{Document, SqlParam, SqlValue, TableSchema, TableSchemaFieldType};

fn object(entries: Vec<(&str, Value)>) -> Value {
    let mut map = serde_json::Map::new();
    for (key, value) in entries {
        map.insert(key.to_string(), value);
    }
    Value::Object(map)
}

fn float(x: f64) -> Value {
    Value::Number(Number::from_f64(x).unwrap())
}

fn text(s: &str) -> Value {
    Value::String(s.to_string())
}

fn array(items: Vec<&str>) -> Value {
    Value::Array(items.into_iter().map(text).collect())
}

fn schema_of(fields: Vec<(&str, TableSchemaFieldType)>) -> TableSchema {
    let mut schema = TableSchema::empty();
    for (name, field_type) in fields {
        assert!(schema.record(name.to_string(), field_type));
    }
    schema
}

fn engine_value(param: &SqlParam) -> rusqlite::types::Value {
    match param.to_sql() {
        SqlValue::Null => rusqlite::types::Value::Null,
        SqlValue::Integer(i) => rusqlite::types::Value::Integer(i),
        SqlValue::Real(bits) => rusqlite::types::Value::Real(f64::from_bits(bits)),
        SqlValue::Text(s) => rusqlite::types::Value::Text(s),
    }
}

fn create_test_schema() -> TableSchema {
    schema_of(vec![
        ("field1", TableSchemaFieldType::Int),
        ("field2", TableSchemaFieldType::Float),
        ("field3", TableSchemaFieldType::Text),
        ("field4", TableSchemaFieldType::Bool),
    ])
}

fn setup_in_memory_db(schema: &TableSchema) -> Connection {
    let conn = Connection::open_in_memory().unwrap();
    let sql_create_table = schema.get_create_table_sql_string("test_table");
    conn.execute(&sql_create_table, []).unwrap();
    conn
}

#[test]
fn test_table_schema_from_rows() {
    let row_1 = object(vec![
        ("field1", Value::from(1)),
        ("field2", float(1.2)),
        ("field3", text("text")),
        ("field4", Value::Bool(true)),
        ("field6", array(vec!["array", "elements"])),
        ("field7", object(vec![("key", text("value"))])),
    ]);
    let row_2 = object(vec![
        ("field1", Value::from(2)),
        ("field2", float(2.4)),
        ("field3", text("more text")),
        ("field4", Value::Bool(false)),
        ("field5", text("not null anymore")),
        ("field6", array(vec!["more", "elements"])),
        ("field7", object(vec![("anotherKey", text("anotherValue"))])),
    ]);
    let rows = vec![Document::from_json(&row_1), Document::from_json(&row_2)];

    let schema = TableSchema::from_rows(&rows).unwrap();
    let expected_schema = schema_of(vec![
        ("field1", TableSchemaFieldType::Int),
        ("field2", TableSchemaFieldType::Float),
        ("field3", TableSchemaFieldType::Text),
        ("field4", TableSchemaFieldType::Bool),
        ("field5", TableSchemaFieldType::Text),
        ("field6", TableSchemaFieldType::Text),
        ("field7", TableSchemaFieldType::Text),
    ]);

    assert_eq!(schema, expected_schema);
}

#[test]
fn test_table_schema_from_rows_conflicting_types() {
    let row_1 = object(vec![
        ("field1", Value::from(1)),
        ("field2", float(1.2)),
        ("field3", text("text")),
        ("field4", Value::Bool(true)),
        ("field6", array(vec!["array", "elements"])),
        ("field7", object(vec![("key", text("value"))])),
    ]);
    let row_2 = object(vec![
        ("field1", Value::from(2)),
        ("field2", float(2.4)),
        ("field3", text("more text")),
        ("field4", text("this was a bool before")),
        ("field5", text("not null anymore")),
        ("field6", array(vec!["more", "elements"])),
        ("field7", object(vec![("anotherKey", text("anotherValue"))])),
    ]);
    let row_3 = object(vec![("field1", text("now it's a text field"))]);
    let rows = vec![
        Document::from_json(&row_1),
        Document::from_json(&row_2),
        Document::from_json(&row_3),
    ];

    let schema = TableSchema::from_rows(&rows);

    assert!(
        schema.is_err(),
        "Schema should have failed due to conflicting types."
    );
}

#[test]
fn test_table_schema_from_empty_rows() {
    let rows = vec![];

    let schema = TableSchema::from_rows(&rows);

    assert!(schema.is_ok(), "Schema from empty rows should be valid.");
}

#[test]
fn test_table_schema_get_create_table_sql_string() {
    let schema = schema_of(vec![
        ("field1", TableSchemaFieldType::Int),
        ("field2", TableSchemaFieldType::Float),
        ("field3", TableSchemaFieldType::Text),
        ("field4", TableSchemaFieldType::Bool),
    ]);

    let sql = schema.get_create_table_sql_string("test_table");

    let conn = Connection::open_in_memory().unwrap();
    conn.execute(&sql, []).unwrap();

    let mut stmt = conn.prepare("PRAGMA table_info(test_table);").unwrap();
    let rows = stmt
        .query_map([], |row| Ok((row.get(1)?, row.get(2)?)))
        .unwrap();

    let mut actual_schema: HashMap<String, String> = HashMap::new();
    for row in rows {
        let (name, ty): (String, String) = row.unwrap();
        actual_schema.insert(name, ty);
    }

    assert_eq!(actual_schema.len(), 4);
    assert_eq!(actual_schema["field1"], "INT");
    assert_eq!(actual_schema["field2"], "REAL");
    assert_eq!(actual_schema["field3"], "TEXT");
    assert_eq!(actual_schema["field4"], "BOOLEAN");
}

#[test]
fn test_get_insert_row_sql_string_success() {
    let schema = create_test_schema();
    let conn = setup_in_memory_db(&schema);

    let row = Document::from_json(&object(vec![
        ("field1", Value::from(1)),
        ("field2", float(2.4)),
        ("field3", text("text")),
        ("field4", Value::Bool(true)),
    ]));

    let (sql, field_names) = schema.get_insert_sql("test_table");

    let params_vec = schema.get_insert_params(&field_names, &row).unwrap();
    println!("{:?}", params_vec);

    let mut stmt = conn.prepare(&sql).unwrap();

    stmt.execute(params_from_iter(params_vec.iter().map(engine_value)))
        .unwrap();

    let mut stmt = conn.prepare("SELECT * FROM test_table;").unwrap();
    let mut rows = stmt.query([]).unwrap();

    if let Some(row) = rows.next().unwrap() {
        let field1: i64 = row.get("field1").unwrap();
        let field2: f64 = row.get("field2").unwrap();
        let field3: String = row.get("field3").unwrap();
        let field4: bool = row.get("field4").unwrap();

        assert_eq!(field1, 1);
        assert_eq!(field2, 2.4);
        assert_eq!(field3, "\"text\"");
        assert_eq!(field4, true);
    } else {
        panic!("No rows found after insert");
    }
}

#[test]
fn test_get_insert_row_sql_string_missing_fields() {
    let schema = create_test_schema();
    let conn = setup_in_memory_db(&schema);

    let row_content = object(vec![("field1", Value::from(1)), ("field2", float(2.4))]);

    let (sql, field_names) = schema.get_insert_sql("test_table");
    let params = schema
        .get_insert_params(&field_names, &Document::from_json(&row_content))
        .unwrap();
    let mut stmt = conn.prepare(&sql).unwrap();
    stmt.execute(params_from_iter(params.iter().map(engine_value)))
        .unwrap();

    let mut stmt = conn.prepare("SELECT * FROM test_table;").unwrap();
    let mut rows = stmt.query([]).unwrap();

    if let Some(row) = rows.next().unwrap() {
        let field1: i64 = row.get("field1").unwrap();
        let field2: f64 = row.get("field2").unwrap();
        let field3: Option<String> = row.get("field3").unwrap();
        let field4: Option<bool> = row.get("field4").unwrap();

        assert_eq!(field1, 1);
        assert_eq!(field2, 2.4);
        assert_eq!(field3, None);
        assert_eq!(field4, None);
    } else {
        panic!("No rows found after insert");
    }
}
