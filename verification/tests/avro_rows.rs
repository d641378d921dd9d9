use horaedb_client::client::{parsed_answer, query_answer, QueryAnswer, RpcContext};
use horaedb_client::db_client::result::QueryResult;
use horaedb_client::errors::Error;
use horaedb_client::model::convert::{parse_one_row, parse_queried_rows, value_to_datum, AvroValue};
use horaedb_client::model::row::{
    AvroKind, AvroSchema, ColumnDataType, QueriedRows, QueryResponse, Row, Schema,
};
use horaedb_client::model::value::Value;

fn schema(kind: AvroKind, debug: &str) -> AvroSchema {
    AvroSchema { kind, debug: debug.to_string() }
}

#[test]
fn basic_schemas_are_column_types() {
    let cases = vec![
        (AvroKind::Null, ColumnDataType::Null),
        (AvroKind::Boolean, ColumnDataType::Boolean),
        (AvroKind::Int, ColumnDataType::Int32),
        (AvroKind::Long, ColumnDataType::Int64),
        (AvroKind::Float, ColumnDataType::Float),
        (AvroKind::Double, ColumnDataType::Double),
        (AvroKind::Bytes, ColumnDataType::Bytes),
        (AvroKind::String, ColumnDataType::String),
        (AvroKind::TimestampMillis, ColumnDataType::TimestampMillis),
    ];
    for (kind, expected) in cases {
        assert_eq!(ColumnDataType::from_avro(&schema(kind, "s")), Ok(expected));
    }
    assert_eq!(
        ColumnDataType::from_avro(&schema(AvroKind::Other, "Uuid")),
        Err("invalid avro basic schema:Uuid".to_string())
    );
    assert_eq!(
        ColumnDataType::from_avro(&schema(AvroKind::Record(Vec::new()), "Record")),
        Err("invalid avro basic schema:Record".to_string())
    );
}

#[test]
fn union_of_null_and_a_type_is_that_type() {
    let nullable = schema(
        AvroKind::Union(vec![schema(AvroKind::Null, "Null"), schema(AvroKind::Long, "Long")]),
        "Union",
    );
    assert_eq!(ColumnDataType::from_avro(&nullable), Ok(ColumnDataType::Int64));
    let nested = schema(AvroKind::Union(vec![schema(AvroKind::Null, "Null"), nullable]), "Outer");
    assert_eq!(ColumnDataType::from_avro(&nested), Ok(ColumnDataType::Int64));
    let three = schema(
        AvroKind::Union(vec![
            schema(AvroKind::Null, "Null"),
            schema(AvroKind::Long, "Long"),
            schema(AvroKind::Int, "Int"),
        ]),
        "U3",
    );
    assert_eq!(
        ColumnDataType::from_avro(&three),
        Err("invalid avro union schema:U3, expect at least two columns".to_string())
    );
    let wrong_head = schema(
        AvroKind::Union(vec![schema(AvroKind::Long, "Long"), schema(AvroKind::Null, "Null")]),
        "U2",
    );
    assert_eq!(
        ColumnDataType::from_avro(&wrong_head),
        Err("invalid avro union schema:U2, expect the first column is null".to_string())
    );
    let bad_second = schema(
        AvroKind::Union(vec![schema(AvroKind::Null, "Null"), schema(AvroKind::Other, "Date")]),
        "U",
    );
    assert_eq!(
        ColumnDataType::from_avro(&bad_second),
        Err("invalid avro basic schema:Date".to_string())
    );
}

fn record_schema() -> AvroSchema {
    schema(
        AvroKind::Record(vec![
            ("t".to_string(), schema(AvroKind::TimestampMillis, "TimestampMillis")),
            ("v".to_string(), schema(AvroKind::Double, "Double")),
        ]),
        "Record",
    )
}

#[test]
fn record_schema_gives_the_columns() {
    let columns = Schema::from_avro(&record_schema()).unwrap();
    assert_eq!(columns.num_cols(), 2);
    assert_eq!(columns.column_schemas[0].name, "t");
    assert_eq!(columns.column_schemas[0].data_type, ColumnDataType::TimestampMillis);
    assert_eq!(columns.column_schemas[1].data_type, ColumnDataType::Double);
    assert_eq!(columns.col_idx("v"), Some(1));
    assert_eq!(
        Schema::from_avro(&schema(AvroKind::Long, "Long")).unwrap_err(),
        "Unsupported schema:Long"
    );
    let bad_field = schema(
        AvroKind::Record(vec![
            ("a".to_string(), schema(AvroKind::Long, "Long")),
            ("b".to_string(), schema(AvroKind::Other, "Date")),
            ("c".to_string(), schema(AvroKind::Other, "Uuid")),
        ]),
        "Record",
    );
    assert_eq!(Schema::from_avro(&bad_field).unwrap_err(), "invalid avro basic schema:Date");
}

#[test]
fn decoded_values_become_datums() {
    assert_eq!(value_to_datum(AvroValue::Null), Ok(Value::Null));
    assert_eq!(value_to_datum(AvroValue::TimestampMillis(5)), Ok(Value::Timestamp(5)));
    assert_eq!(
        value_to_datum(AvroValue::Double(1.5f64.to_bits())),
        Ok(Value::Double(1.5f64.to_bits()))
    );
    assert_eq!(
        value_to_datum(AvroValue::Float(1.5f32.to_bits())),
        Ok(Value::Float(1.5f32.to_bits()))
    );
    assert_eq!(value_to_datum(AvroValue::Bytes(vec![1])), Ok(Value::Varbinary(vec![1])));
    assert_eq!(
        value_to_datum(AvroValue::String("s".to_string())),
        Ok(Value::String("s".to_string()))
    );
    assert_eq!(value_to_datum(AvroValue::Long(-1)), Ok(Value::Int64(-1)));
    assert_eq!(value_to_datum(AvroValue::Int(-2)), Ok(Value::Int32(-2)));
    assert_eq!(value_to_datum(AvroValue::Boolean(true)), Ok(Value::Boolean(true)));
    let nested = AvroValue::Union(Box::new(AvroValue::Union(Box::new(AvroValue::Int(3)))));
    assert_eq!(value_to_datum(nested), Ok(Value::Int32(3)));
    assert_eq!(
        value_to_datum(AvroValue::Other("Date(1)".to_string())),
        Err("Unsupported value type:Date(1)".to_string())
    );
    assert_eq!(
        value_to_datum(AvroValue::Record(Vec::new(), "Record([])".to_string())),
        Err("Unsupported value type:Record([])".to_string())
    );
}

fn record(values: Vec<AvroValue>) -> AvroValue {
    AvroValue::Record(values.into_iter().map(|v| ("c".to_string(), v)).collect(), "rec".to_string())
}

#[test]
fn decoded_record_fills_a_row() {
    let mut row = Row::with_column_num(2);
    parse_one_row(record(vec![AvroValue::Long(1), AvroValue::Null]), "r", &mut row).unwrap();
    assert_eq!(row.datums, vec![Value::Int64(1), Value::Null]);
    let no_record = parse_one_row(AvroValue::Long(1), "Long(1)", &mut row);
    assert_eq!(no_record.unwrap_err(), "invalid avro row:Long(1), expect record");
    assert_eq!(row.datums.len(), 2);
    let bad = parse_one_row(
        record(vec![AvroValue::Int(7), AvroValue::Other("Uuid".to_string())]),
        "r",
        &mut row,
    );
    assert_eq!(bad.unwrap_err(), "Unsupported value type:Uuid");
    assert_eq!(row.datums, vec![Value::Int64(1), Value::Null, Value::Int32(7)]);
}

#[test]
fn decoded_rows_become_queried_rows() {
    let rows = parse_queried_rows(
        &record_schema(),
        vec![
            (record(vec![AvroValue::TimestampMillis(1), AvroValue::Double(0)]), "r1".to_string()),
            (record(vec![AvroValue::TimestampMillis(2), AvroValue::Null]), "r2".to_string()),
        ],
    )
    .unwrap();
    assert_eq!(rows.schema.num_cols(), 2);
    assert_eq!(
        rows.rows,
        vec![
            Row { datums: vec![Value::Timestamp(1), Value::Double(0)] },
            Row { datums: vec![Value::Timestamp(2), Value::Null] },
        ]
    );
    let empty = parse_queried_rows(&record_schema(), Vec::new()).unwrap();
    assert!(empty.rows.is_empty());
    let no_columns = parse_queried_rows(&schema(AvroKind::Int, "Int"), Vec::new());
    assert_eq!(no_columns.unwrap_err(), "Unsupported schema:Int");
    let bad_rows = parse_queried_rows(
        &record_schema(),
        vec![
            (record(vec![AvroValue::Null]), "r1".to_string()),
            (AvroValue::Int(1), "Int(1)".to_string()),
            (AvroValue::Int(2), "Int(2)".to_string()),
        ],
    );
    assert_eq!(bad_rows.unwrap_err(), "invalid avro row:Int(1), expect record");
}

#[test]
fn answer_to_a_query_is_classified() {
    let failed = query_answer(500, "boom".to_string(), 0, true, true);
    assert!(matches!(failed, Err(Error::Server(e)) if e.code == 500 && e.msg == "boom"));
    assert!(matches!(
        query_answer(200, String::new(), 7, true, false).unwrap(),
        QueryAnswer::Done(QueryResponse::AffectedRows(7))
    ));
    assert!(matches!(
        query_answer(200, String::new(), 7, false, true).unwrap(),
        QueryAnswer::Done(QueryResponse::Rows(rows)) if rows.rows.is_empty()
    ));
    assert!(matches!(
        query_answer(200, String::new(), 7, false, false).unwrap(),
        QueryAnswer::Parse
    ));
    let bad = parsed_answer(Err("no schema".to_string()));
    assert!(matches!(bad, Err(Error::Client(m)) if m == "no schema"));
    let good = parsed_answer(Ok(QueriedRows::default()));
    assert!(matches!(good, Ok(QueryResponse::Rows(_))));
    let wrapped = QueryResult::new(Ok(QueryResponse::AffectedRows(1)));
    assert!(matches!(wrapped.result, Ok(QueryResponse::AffectedRows(1))));
    let ctx = RpcContext::new("test".to_string(), "".to_string());
    assert_eq!(ctx.clone().tenant, "test");
}
