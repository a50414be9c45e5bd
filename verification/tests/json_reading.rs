use serde_json::{Number, Value};
use table_schema::number::integer_of_float;
use table_schema::{
    Document, FieldValue, InferError, SqlParam, TableSchema, TableSchemaFieldType,
};

fn json_object(entries: Vec<(&str, Value)>) -> Value {
    let mut map = serde_json::Map::new();
    for (key, value) in entries {
        map.insert(key.to_string(), value);
    }
    Value::Object(map)
}

fn json_float(x: f64) -> Value {
    Value::Number(Number::from_f64(x).unwrap())
}

#[test]
fn null_reads_as_null() {
    assert_eq!(FieldValue::from_json(&Value::Null), FieldValue::Null);
}

#[test]
fn booleans_read_as_booleans() {
    assert_eq!(FieldValue::from_json(&Value::Bool(true)), FieldValue::Bool(true));
    assert_eq!(FieldValue::from_json(&Value::Bool(false)), FieldValue::Bool(false));
}

#[test]
fn integers_read_as_int() {
    assert_eq!(FieldValue::from_json(&Value::from(1)), FieldValue::Int(1));
    assert_eq!(FieldValue::from_json(&Value::from(0)), FieldValue::Int(0));
    assert_eq!(FieldValue::from_json(&Value::from(-5)), FieldValue::Int(-5));
    assert_eq!(
        FieldValue::from_json(&Value::from(i64::MAX)),
        FieldValue::Int(i64::MAX)
    );
    assert_eq!(
        FieldValue::from_json(&Value::from(i64::MIN)),
        FieldValue::Int(i64::MIN)
    );
}

#[test]
fn fractions_read_as_float() {
    assert_eq!(
        FieldValue::from_json(&json_float(2.4)),
        FieldValue::Float(2.4f64.to_bits())
    );
    assert_eq!(
        FieldValue::from_json(&json_float(-0.5)),
        FieldValue::Float((-0.5f64).to_bits())
    );
}

#[test]
fn a_float_without_fraction_reads_as_int() {
    assert_eq!(FieldValue::from_json(&json_float(1.0)), FieldValue::Int(1));
    assert_eq!(FieldValue::from_json(&json_float(7.0)), FieldValue::Int(7));
    assert_eq!(FieldValue::from_json(&json_float(256.0)), FieldValue::Int(256));
    assert_eq!(FieldValue::from_json(&json_float(-3.0)), FieldValue::Int(-3));
    assert_eq!(FieldValue::from_json(&json_float(1e3)), FieldValue::Int(1000));
    assert_eq!(FieldValue::from_json(&json_float(0.0)), FieldValue::Int(0));
    assert_eq!(FieldValue::from_json(&json_float(-0.0)), FieldValue::Int(0));
}

#[test]
fn whole_floats_at_the_edge_of_the_integers() {
    let two_to_53 = 9007199254740992.0f64;
    let two_to_62 = 4611686018427387904.0f64;
    let two_to_63 = 9223372036854775808.0f64;
    let below_two_to_63 = 9223372036854774784.0f64;
    assert_eq!(
        FieldValue::from_json(&json_float(two_to_53)),
        FieldValue::Int(9007199254740992)
    );
    assert_eq!(
        FieldValue::from_json(&json_float(two_to_53 + 2.0)),
        FieldValue::Int(9007199254740994)
    );
    assert_eq!(
        FieldValue::from_json(&json_float(two_to_62)),
        FieldValue::Int(4611686018427387904)
    );
    assert_eq!(
        FieldValue::from_json(&json_float(below_two_to_63)),
        FieldValue::Int(9223372036854774784)
    );
    assert_eq!(
        FieldValue::from_json(&json_float(two_to_63)),
        FieldValue::Float(two_to_63.to_bits())
    );
    assert_eq!(
        FieldValue::from_json(&json_float(-two_to_63)),
        FieldValue::Int(i64::MIN)
    );
    assert_eq!(
        FieldValue::from_json(&json_float(-two_to_63 - 2048.0)),
        FieldValue::Float((-two_to_63 - 2048.0).to_bits())
    );
    assert_eq!(
        FieldValue::from_json(&json_float(1e19)),
        FieldValue::Float(1e19f64.to_bits())
    );
    assert_eq!(
        FieldValue::from_json(&json_float(1e300)),
        FieldValue::Float(1e300f64.to_bits())
    );
    assert_eq!(
        FieldValue::from_json(&json_float(0.999999)),
        FieldValue::Float(0.999999f64.to_bits())
    );
    assert_eq!(
        FieldValue::from_json(&json_float(4503599627370495.5)),
        FieldValue::Float(4503599627370495.5f64.to_bits())
    );
    assert_eq!(
        FieldValue::from_json(&json_float(5e-324)),
        FieldValue::Float(5e-324f64.to_bits())
    );
}

#[test]
fn a_number_is_valued_from_its_two_readings() {
    assert_eq!(
        FieldValue::of_number(Some(5), Some(5.0f64.to_bits())),
        FieldValue::Int(5)
    );
    assert_eq!(FieldValue::of_number(Some(-5), None), FieldValue::Int(-5));
    assert_eq!(
        FieldValue::of_number(None, Some(5.0f64.to_bits())),
        FieldValue::Int(5)
    );
    assert_eq!(
        FieldValue::of_number(None, Some(5.5f64.to_bits())),
        FieldValue::Float(5.5f64.to_bits())
    );
    assert_eq!(
        FieldValue::of_number(None, Some(f64::INFINITY.to_bits())),
        FieldValue::Float(f64::INFINITY.to_bits())
    );
    assert_eq!(
        FieldValue::of_number(None, Some(f64::NEG_INFINITY.to_bits())),
        FieldValue::Float(f64::NEG_INFINITY.to_bits())
    );
    assert_eq!(
        FieldValue::of_number(None, Some(f64::NAN.to_bits())),
        FieldValue::Float(f64::NAN.to_bits())
    );
    assert_eq!(FieldValue::of_number(None, None), FieldValue::OutOfRange);
}

fn whole(x: f64) -> Option<i64> {
    if x.is_finite() && x.fract() == 0.0 && x >= -9223372036854775808.0 && x < 9223372036854775808.0
    {
        Some(x as i64)
    } else {
        None
    }
}

#[test]
fn bit_patterns_read_as_the_floats_they_are() {
    let samples = [
        0.0, -0.0, 1.0, -1.0, 2.0, 3.0, 0.5, -0.5, 1.5, 2.4, 1e3, 1e15, 1e16, 1e18, 1e19,
        123456789.0, 123456789.25, -987654321.0, 4294967296.0, 4294967296.5, 1e-10, 1e300,
        -1e300, 9007199254740991.0, 9007199254740992.0, 9223372036854775808.0,
        -9223372036854775808.0, 9223372036854774784.0, -9223372036854777856.0,
        f64::MIN_POSITIVE, f64::MAX, f64::MIN, f64::EPSILON, f64::INFINITY, f64::NEG_INFINITY,
        f64::NAN,
    ];
    for x in samples {
        assert_eq!(integer_of_float(x.to_bits()), whole(x), "{}", x);
    }
    let mut bits: u64 = 0x9E37_79B9_7F4A_7C15;
    for _ in 0..20000 {
        bits = bits
            .wrapping_mul(6364136223846793005)
            .wrapping_add(1442695040888963407);
        let x = f64::from_bits(bits);
        assert_eq!(integer_of_float(bits), whole(x), "{:#x}", bits);
        let near = f64::from_bits((bits % (64 << 52)) + (1000 << 52));
        assert_eq!(integer_of_float(near.to_bits()), whole(near), "{}", near);
        let rounded = near.round();
        assert_eq!(integer_of_float(rounded.to_bits()), whole(rounded), "{}", rounded);
        let negative = -rounded;
        assert_eq!(integer_of_float(negative.to_bits()), whole(negative), "{}", negative);
    }
}

#[test]
fn integers_beyond_i64_read_as_float() {
    let big = i64::MAX as u64 + 10;
    assert_eq!(
        FieldValue::from_json(&Value::from(big)),
        FieldValue::Float((big as f64).to_bits())
    );
    assert_eq!(
        FieldValue::from_json(&Value::from(u64::MAX)),
        FieldValue::Float((u64::MAX as f64).to_bits())
    );
}

#[test]
fn parsed_numbers_read_by_their_value() {
    let parsed: Value = serde_json::from_str("[7, 7.0, 1e3, -12, 0.25, 1e300, -0.0]").unwrap();
    let items = parsed.as_array().unwrap();
    assert_eq!(FieldValue::from_json(&items[0]), FieldValue::Int(7));
    assert_eq!(FieldValue::from_json(&items[1]), FieldValue::Int(7));
    assert_eq!(FieldValue::from_json(&items[2]), FieldValue::Int(1000));
    assert_eq!(FieldValue::from_json(&items[3]), FieldValue::Int(-12));
    assert_eq!(
        FieldValue::from_json(&items[4]),
        FieldValue::Float(0.25f64.to_bits())
    );
    assert_eq!(
        FieldValue::from_json(&items[5]),
        FieldValue::Float(1e300f64.to_bits())
    );
    assert_eq!(FieldValue::from_json(&items[6]), FieldValue::Int(0));
}

#[test]
fn a_whole_float_makes_an_integer_field() {
    let rows = vec![Document::from_json(&json_object(vec![("x", json_float(1.0))]))];
    let schema = TableSchema::from_rows(&rows).unwrap();
    assert_eq!(schema.get(&"x".to_string()), Some(TableSchemaFieldType::Int));
    assert_eq!(schema.field_names().len(), 1);
}

#[test]
fn an_integer_and_a_whole_float_agree() {
    let rows = vec![
        Document::from_json(&json_object(vec![("n", Value::from(1))])),
        Document::from_json(&json_object(vec![("n", json_float(1.0))])),
        Document::from_json(&json_object(vec![("n", json_float(-0.0))])),
    ];
    let schema = TableSchema::from_rows(&rows).unwrap();
    assert_eq!(schema.get(&"n".to_string()), Some(TableSchemaFieldType::Int));
    let rows = vec![
        Document::from_json(&json_object(vec![("n", json_float(2.0))])),
        Document::from_json(&json_object(vec![("n", Value::from(3))])),
    ];
    let schema = TableSchema::from_rows(&rows).unwrap();
    assert_eq!(schema.get(&"n".to_string()), Some(TableSchemaFieldType::Int));
}

#[test]
fn a_whole_float_and_a_fraction_conflict() {
    let rows = vec![
        Document::from_json(&json_object(vec![("n", json_float(1.0))])),
        Document::from_json(&json_object(vec![("n", json_float(1.5))])),
    ];
    assert_eq!(
        TableSchema::from_rows(&rows),
        Err(InferError::TypeConflict {
            field: "n".to_string(),
            row_index: 1,
            existing: TableSchemaFieldType::Int,
            found: TableSchemaFieldType::Float,
        })
    );
}

#[test]
fn a_whole_float_binds_as_an_integer() {
    let schema = TableSchema::empty();
    let a = "a".to_string();
    let b = "b".to_string();
    let row = Document::from_json(&json_object(vec![
        ("a", json_float(1.0)),
        ("b", json_float(2.5)),
    ]));
    assert_eq!(
        schema.get_insert_params(&vec![&a, &b], &row),
        Ok(vec![SqlParam::Int(1), SqlParam::Float(2.5f64.to_bits())])
    );
}

#[test]
fn strings_read_as_text() {
    assert_eq!(
        FieldValue::from_json(&Value::String("text".to_string())),
        FieldValue::Text("text".to_string())
    );
    assert_eq!(
        FieldValue::from_json(&Value::String(String::new())),
        FieldValue::Text(String::new())
    );
}

#[test]
fn arrays_and_objects_read_as_opaque() {
    assert_eq!(
        FieldValue::from_json(&Value::Array(vec![Value::from(1), Value::Null])),
        FieldValue::Array
    );
    assert_eq!(FieldValue::from_json(&Value::Array(vec![])), FieldValue::Array);
    assert_eq!(
        FieldValue::from_json(&json_object(vec![("key", Value::from(1))])),
        FieldValue::Object
    );
    assert_eq!(FieldValue::from_json(&json_object(vec![])), FieldValue::Object);
}

#[test]
fn an_object_reads_as_its_entries() {
    let content = json_object(vec![
        ("b", Value::from(1)),
        ("a", Value::String("x".to_string())),
        ("c", Value::Null),
        ("d", json_object(vec![("nested", Value::Bool(true))])),
    ]);
    assert_eq!(
        Document::from_json(&content),
        Document::Object(vec![
            ("a".to_string(), FieldValue::Text("x".to_string())),
            ("b".to_string(), FieldValue::Int(1)),
            ("c".to_string(), FieldValue::Null),
            ("d".to_string(), FieldValue::Object),
        ])
    );
}

#[test]
fn an_empty_object_reads_as_no_entries() {
    assert_eq!(
        Document::from_json(&json_object(vec![])),
        Document::Object(vec![])
    );
}

#[test]
fn other_content_reads_as_other() {
    assert_eq!(Document::from_json(&Value::Null), Document::Other);
    assert_eq!(Document::from_json(&Value::Bool(true)), Document::Other);
    assert_eq!(Document::from_json(&Value::from(3)), Document::Other);
    assert_eq!(
        Document::from_json(&Value::String("{}".to_string())),
        Document::Other
    );
    assert_eq!(
        Document::from_json(&Value::Array(vec![json_object(vec![])])),
        Document::Other
    );
}

#[test]
fn a_parsed_document_reads_as_written() {
    let content: Value =
        serde_json::from_str(r#"{"n": 3, "x": 0.25, "s": "hi", "t": true, "z": null, "l": [1]}"#)
            .unwrap();
    let doc = Document::from_json(&content);
    assert_eq!(doc.get(&"n".to_string()), Some(&FieldValue::Int(3)));
    assert_eq!(
        doc.get(&"x".to_string()),
        Some(&FieldValue::Float(0.25f64.to_bits()))
    );
    assert_eq!(
        doc.get(&"s".to_string()),
        Some(&FieldValue::Text("hi".to_string()))
    );
    assert_eq!(doc.get(&"t".to_string()), Some(&FieldValue::Bool(true)));
    assert_eq!(doc.get(&"z".to_string()), Some(&FieldValue::Null));
    assert_eq!(doc.get(&"l".to_string()), Some(&FieldValue::Array));
    assert_eq!(doc.get(&"missing".to_string()), None);
}
