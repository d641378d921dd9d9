use horaedb_client::errors::Error;
use horaedb_client::model::sql_query::response::{
    build_rows, unzip_batches, Compression, Output, Response,
};
use horaedb_client::model::sql_query::row::{ArrowColumn, Column, RecordBatch, Row, RowBuilder};
use horaedb_client::model::value::Value;

#[test]
fn test_build_row() {
    let int_values = vec![1, 2, 3];
    let string_values = vec!["test1".to_string(), "test2".to_string(), "test3".to_string()];
    let binary_values = vec![b"0.1".as_slice(), b"0.2".as_slice(), b"0.3".as_slice()];
    let timestamp_values = vec![1001, 1002, 1003];
    let timestamp32_values = vec![1004, 1005, 1006];
    // Built rows.
    let arrow_batch = RecordBatch {
        fields: vec![
            "int".to_string(),
            "string".to_string(),
            "varbinary".to_string(),
            "timestamp".to_string(),
            "timestamp32".to_string(),
        ],
        columns: vec![
            ArrowColumn::Int32(int_values.clone()),
            ArrowColumn::Utf8(string_values.clone()),
            ArrowColumn::Binary(binary_values.iter().map(|v| v.to_vec()).collect()),
            ArrowColumn::TimestampMillisecond(timestamp_values.clone()),
            ArrowColumn::Time32Millisecond(timestamp32_values.clone()),
        ],
        num_rows: 3,
    };

    let built_rows = RowBuilder::with_arrow_record_batch(arrow_batch).unwrap().build();

    // Expected rows
    let int_col_values = int_values.into_iter().map(Value::Int32).collect::<Vec<_>>();
    let string_col_values = string_values.into_iter().map(Value::String).collect::<Vec<_>>();
    let binary_col_values =
        binary_values.into_iter().map(|v| Value::Varbinary(v.to_vec())).collect::<Vec<_>>();
    let timestamp_col_values =
        timestamp_values.into_iter().map(|v| Value::Timestamp(v as i64)).collect::<Vec<_>>();
    let timestamp32_col_values =
        timestamp32_values.into_iter().map(|v| Value::Timestamp(v as i64)).collect::<Vec<_>>();
    let row1 = Row {
        columns: vec![
            Column::new("int".to_string(), int_col_values[0].clone()),
            Column::new("string".to_string(), string_col_values[0].clone()),
            Column::new("varbinary".to_string(), binary_col_values[0].clone()),
            Column::new("timestamp".to_string(), timestamp_col_values[0].clone()),
            Column::new("timestamp32".to_string(), timestamp32_col_values[0].clone()),
        ],
    };
    let row2 = Row {
        columns: vec![
            Column::new("int".to_string(), int_col_values[1].clone()),
            Column::new("string".to_string(), string_col_values[1].clone()),
            Column::new("varbinary".to_string(), binary_col_values[1].clone()),
            Column::new("timestamp".to_string(), timestamp_col_values[1].clone()),
            Column::new("timestamp32".to_string(), timestamp32_col_values[1].clone()),
        ],
    };
    let row3 = Row {
        columns: vec![
            Column::new("int".to_string(), int_col_values[2].clone()),
            Column::new("string".to_string(), string_col_values[2].clone()),
            Column::new("varbinary".to_string(), binary_col_values[2].clone()),
            Column::new("timestamp".to_string(), timestamp_col_values[2].clone()),
            Column::new("timestamp32".to_string(), timestamp32_col_values[2].clone()),
        ],
    };
    let expected_rows = vec![row1, row2, row3];

    assert_eq!(built_rows, expected_rows);
}

fn batch(names: &[&str], columns: Vec<ArrowColumn>, num_rows: usize) -> RecordBatch {
    RecordBatch { fields: names.iter().map(|n| n.to_string()).collect(), columns, num_rows }
}

#[test]
fn rows_hold_every_kind_of_column() {
    let built = RowBuilder::with_arrow_record_batch(batch(
        &["n", "b", "i8", "i16", "i64", "u8", "u16", "u32", "u64"],
        vec![
            ArrowColumn::Null,
            ArrowColumn::Boolean(vec![true, false]),
            ArrowColumn::Int8(vec![-1, 1]),
            ArrowColumn::Int16(vec![-2, 2]),
            ArrowColumn::Int64(vec![-3, 3]),
            ArrowColumn::UInt8(vec![4, 5]),
            ArrowColumn::UInt16(vec![6, 7]),
            ArrowColumn::UInt32(vec![8, 9]),
            ArrowColumn::UInt64(vec![10, 11]),
        ],
        2,
    ))
    .unwrap()
    .build();
    let values: Vec<&Value> = built[1].columns().iter().map(|c| &c.value).collect();
    assert_eq!(
        values,
        vec![
            &Value::Null,
            &Value::Boolean(false),
            &Value::Int8(1),
            &Value::Int16(2),
            &Value::Int64(3),
            &Value::UInt8(5),
            &Value::UInt16(7),
            &Value::UInt32(9),
            &Value::UInt64(11)
        ]
    );
    assert_eq!(built[0].column("i16").unwrap().value, Value::Int16(-2));
    assert!(built[0].column("none").is_none());
}

#[test]
fn column_of_unsupported_type_is_refused() {
    let refused = RowBuilder::with_arrow_record_batch(batch(
        &["a", "b", "c"],
        vec![
            ArrowColumn::Int8(vec![1]),
            ArrowColumn::Unsupported("Date32".to_string()),
            ArrowColumn::Unsupported("Date64".to_string()),
        ],
        1,
    ));
    assert!(matches!(refused, Err(Error::BuildRows(m)) if m == "Unsupported arrow type:Date32"));
}

#[test]
fn batch_without_rows_or_columns_builds_nothing() {
    let no_rows = RowBuilder::with_arrow_record_batch(batch(
        &["a"],
        vec![ArrowColumn::Int8(Vec::new())],
        0,
    ))
    .unwrap();
    assert_eq!(no_rows.col_idx_to_name, vec!["a".to_string()]);
    assert!(no_rows.build().is_empty());
    let no_columns =
        RowBuilder::with_arrow_record_batch(batch(&[], Vec::new(), 2)).unwrap().build();
    assert_eq!(no_columns.len(), 2);
    assert!(no_columns[0].columns().is_empty());
}

#[test]
fn filling_a_column_leaves_the_others() {
    let mut rows = vec![
        vec![Value::Int8(1), Value::Null, Value::Int8(3)],
        vec![Value::Int8(4), Value::Int8(5), Value::Int8(6)],
    ];
    let column = ArrowColumn::Utf8(vec!["x".to_string(), "y".to_string()]);
    RowBuilder::fill_column_in_row_batch(&mut rows, 1, &column).unwrap();
    assert_eq!(
        rows,
        vec![
            vec![Value::Int8(1), Value::String("x".to_string()), Value::Int8(3)],
            vec![Value::Int8(4), Value::String("y".to_string()), Value::Int8(6)],
        ]
    );
    RowBuilder::fill_column_in_row_batch(&mut rows, 0, &ArrowColumn::Null).unwrap();
    assert_eq!(rows[0][0], Value::Int8(1));
    let refused = RowBuilder::fill_column_in_row_batch(
        &mut rows,
        2,
        &ArrowColumn::Unsupported("List".to_string()),
    );
    assert!(matches!(refused, Err(Error::BuildRows(m)) if m == "Unsupported arrow type:List"));
    assert_eq!(rows[1][2], Value::Int8(6));
}

#[test]
fn first_column_of_a_name_is_found() {
    let row = Row {
        columns: vec![
            Column::new("a".to_string(), Value::Int8(1)),
            Column::new("b".to_string(), Value::Int8(2)),
            Column::new("a".to_string(), Value::Int8(3)),
        ],
    };
    assert_eq!(row.column("a").unwrap().value, Value::Int8(1));
    assert_eq!(row.column("b").unwrap().value, Value::Int8(2));
    assert!(row.column("c").is_none());
    assert_eq!(row.columns().len(), 3);
}

#[test]
fn rows_of_batches_follow_each_other() {
    let rows = build_rows(vec![
        batch(&["a"], vec![ArrowColumn::Int8(vec![1, 2])], 2),
        batch(&["b"], vec![ArrowColumn::Int16(Vec::new())], 0),
        batch(&["c"], vec![ArrowColumn::Int32(vec![3])], 1),
    ])
    .unwrap();
    assert_eq!(
        rows,
        vec![
            Row { columns: vec![Column::new("a".to_string(), Value::Int8(1))] },
            Row { columns: vec![Column::new("a".to_string(), Value::Int8(2))] },
            Row { columns: vec![Column::new("c".to_string(), Value::Int32(3))] },
        ]
    );
    assert!(build_rows(Vec::new()).unwrap().is_empty());
    let refused = build_rows(vec![
        batch(&["a"], vec![ArrowColumn::Int8(vec![1])], 1),
        batch(&["b"], vec![ArrowColumn::Unsupported("Map".to_string())], 1),
    ]);
    assert!(matches!(refused, Err(Error::BuildRows(m)) if m == "Unsupported arrow type:Map"));
}

#[test]
fn batches_are_unpacked() {
    let plain = b"record batch bytes, record batch bytes".to_vec();
    let packed = zstd::stream::encode_all(plain.as_slice(), 0).unwrap();
    assert_ne!(packed, plain);
    let unzipped = unzip_batches(Compression::Zstd, vec![packed.clone(), packed.clone()]).unwrap();
    assert_eq!(unzipped, vec![plain.clone(), plain.clone()]);
    let kept = unzip_batches(Compression::Uncompressed, vec![packed.clone()]).unwrap();
    assert_eq!(kept, vec![packed.clone()]);
    let refused = unzip_batches(Compression::Zstd, vec![packed, plain]);
    assert!(matches!(refused, Err(Error::DecodeArrowPayload(_))));
    assert!(unzip_batches(Compression::Zstd, Vec::new()).unwrap().is_empty());
}

#[test]
fn response_holds_what_the_query_put_out() {
    let counted = Response::from_output(Some(Output::AffectedRows(3))).unwrap();
    assert_eq!(counted.affected_rows, 3);
    assert!(counted.rows.is_empty());
    let row = Row { columns: vec![Column::new("a".to_string(), Value::Int8(1))] };
    let listed = Response::from_output(Some(Output::Rows(vec![row]))).unwrap();
    assert_eq!(listed.affected_rows, 0);
    assert_eq!(listed.rows.len(), 1);
    let empty = Response::from_output(None);
    assert!(
        matches!(empty, Err(Error::Unknown(m)) if m == "output is empty in sql query response")
    );
    assert_eq!(Response::default().affected_rows, 0);
}
